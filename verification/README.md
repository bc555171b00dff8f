# carnet

Pipeline médias du site des voyages : inventaire d'un dossier de photos et
de vidéos, datation, contrôle de la qualité des positions, surcharges
manuelles, reconstitution des positions manquantes, traces jour par jour,
pose des positions douteuses sur la trace, sélection des médias publiés,
dérivés d'images, index des journées.

## Organisation

- `src/` : la bibliothèque vérifiée par Verus. Chaque fonction publique
  porte un contrat (`requires` / `ensures`) énoncé sur des fonctions de
  spécification ; les lois qui relient plusieurs fonctions sont des
  fonctions de preuve publiques (`loi_…`). Les positions y sont des entiers
  (dix-millionièmes de degré, millimètres d'altitude), les jours des jours
  civils comptés depuis le 1er janvier 1970, les instants des secondes en
  temps universel avec leur décalage. Les distances sur la sphère sont
  reçues d'une mesure passée en argument.
- `app/` : la ligne de commande `carnet` (`scan`, `build`, `check`,
  `stats`) et tout ce qui touche au disque, au réseau et à la virgule
  flottante : lecture des YAML et des EXIF, appels au moteur d'itinéraire,
  encodage AVIF (dont la qualité est un flottant), écriture des fichiers,
  des JSON et du GeoJSON.
- `tests/` : les scénarios, sur des valeurs concrètes.

Quelques appels de bibliothèques extérieures restent dans `src/`, derrière
des fonctions de confiance dont le contrat nomme ce qu'elles rendent : les
décalages horaires de `chrono-tz`, la lecture d'une date par `chrono`, le
décodage, le redressement, le redimensionnement et l'encodage JPEG des
photos par `image` et `fast_image_resize`, et deux fonctions de la
bibliothèque standard sur les chaînes.
