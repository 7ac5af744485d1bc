# Production Importer

Moves the rows of a table of SQL Server into an index of ElasticSearch, batch by batch, and takes
up its work where the last run left it.

## Layout

- `src/` is the verified library: everything that decides or computes. Each function states in its
  contract what it returns, and Verus proves it. What the contracts in `config`, `dates` and `json`
  say of the calls into `rust-ini`, `chrono` and `serde_json` is believed without proof; the comment
  above each such function names the call.
- `app/` is the program around it: files, connections and requests.
- `tests/` runs the library on concrete values.

| module      | what it holds                                                      |
|-------------|--------------------------------------------------------------------|
| `config`    | the settings of the INI file                                       |
| `dates`     | the styles of dates, and which texts are dates in them             |
| `layout`    | the point field and the combined fields                            |
| `record`    | the lines of the INI file that record how far an import has come   |
| `query`     | the statements for SQL Server                                      |
| `mapping`   | the mapping of the index                                           |
| `selection` | the columns of a batch, and the fields that they become            |
| `document`  | the documents of rows, and the body of a bulk request              |
| `elastic`   | addresses of ElasticSearch, and what its replies mean              |
| `import`    | the course of an import                                            |
| `json`      | JSON values, and what is relied on of `serde_json`                 |
| `text`      | texts and numbers                                                  |

## Configuration

The program reads `config.ini`, section `CONFIG`. A star marks the keys that must be there.

- `SQL_HOST`*, `SQL_PORT`*, `SQL_USER`*, `SQL_PASS`*: the server, and the user on it
- `SQL_DB`*, `SQL_PREFIX`*, `SQL_TABLE`*: the table to import
- `ELASTIC_HOST`*, `ELASTIC_INDEX`*: the index to import into
- `ELASTIC_USER`, `ELASTIC_PASS`: the user of ElasticSearch, empty by default
- `ROWS_AT_ONCE`*: the number of rows of a batch
- `THREADS`*: the number of threads that process rows
- `DATE_FORMAT`*: the style of SQL Server in which dates are fetched, 1 to 130; a date goes into its
  document as it is written in that style, and a text that is no such date is left out
- `ES_INDEX_CREATED`: with `yes` the index is taken as it is, otherwise it is created anew
- `LAST_ROW`: the last primary key that was imported
- `ELASTIC_GEO_FIELD`: the name of the point field; there is no point where it is absent or empty
- `SQL_LON_FIELD`, `SQL_LAT_FIELD`: the columns with the coordinates of the point
- `CATCHALL`: the combined fields, such as `all=a,b;other=c`; none by default
