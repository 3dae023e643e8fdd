# G360 DB Ventas

Captura de las ventas que publica la intranet de CIPSA, hacia una base SQLite local y
hacia Supabase.

- `src/` — las reglas, verificadas: calendario y rangos de fechas, lectura de las
  exportaciones, conversion de hojas de calculo, paginas de la intranet, como se captura
  un lote y que se hace cuando falla, que se sube a Supabase y en que orden, ajustes y
  panel. Cada funcion dice en su contrato lo que devuelve; las funciones `ley_*` enuncian
  lo que vale de varias a la vez.
- `app/` — el programa: disco, red, navegador, SQLite y la linea de ordenes. Los numeros
  con decimales se leen, se redondean y se dividen aqui; la biblioteca los lleva como los
  bits de su representacion. Tambien se abren aqui los libros con macros y los de formatos
  comprimidos; los `.xls` los abre la biblioteca, que antes mira si estan enteros.
- `tests/` — pruebas de la biblioteca.

Las llamadas a otras bibliotecas (`chrono`, `csv`, `calamine`) estan en funciones
pequenas de `src/` cuyo comentario dice que se da por cierto de cada una.

## Ordenes

```
capture                     # el mes en curso
batch                       # los ultimos doce meses
normalize                   # .xls -> CSV -> SQLite
upload                      # SQLite -> Supabase
query                       # consulta la base
recapture <inicio> <fin>    # captura otra vez un rango, aaaa-mm-dd
--auto-sync                 # captura, comprueba y sube lo del dia anterior
panel <orden> [argumentos]  # cada orden del panel
```

Las credenciales de la intranet se leen de `G360_INTRANET_USER` y `G360_INTRANET_PASS`
(tambien de un archivo `.env`) o de los ajustes guardados.
