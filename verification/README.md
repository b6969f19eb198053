# quickshift

Planificador de horarios académicos: lee la malla curricular, la oferta
académica y los porcentajes de aprobados de planillas Excel, y arma la
lista de secciones candidatas de la ruta crítica.

- `src/` es la biblioteca verificada con Verus. Cada función pública dice
  en su contrato qué devuelve, sobre funciones `spec` de secuencias y
  textos; las leyes (`ley_*`) son funciones `proof` públicas.
  - `texto`, `numeros`: recorte, partición, reemplazo, lectura y escritura
    de enteros.
  - `models`: secciones, ramos y el mapa de ramos por código.
  - `excel`: malla, oferta y porcentajes a partir de las celdas.
  - `xlsx`: partes XML de un libro (cadenas compartidas, libro,
    relaciones, hoja), tokenizadas con `quick_xml`.
  - `rutacritica::extract`: equivalencias, electivos, cursos de formación
    general y la lista de secciones.
  - `SAP_parser`, `api_json`, `API_json`, `rutacomoda`: datos ya leídos de
    JSON.
- `app/` abre los archivos (con `calamine`, `zip`, `serde_json`,
  `reqwest`), convierte sus valores y llama a la biblioteca.
- `tests/` prueba la biblioteca con valores concretos.
