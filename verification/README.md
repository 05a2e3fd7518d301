# garage

The server of a small workshop: cars and their photos, jobs, the oil archive,
workers, rules that fill in jobs, the store with its divisions and stocktakes,
settings, a chat, and handheld scanners.

* `src/` is the library. It holds the rules of the workshop, and Verus proves
  them. Documents are values of `json::Json`; contracts speak of what they say,
  `json::Doc`. What is stored, sent and answered is a function of such
  documents, of file names and of the time.
* `app/` is the server around it. It reads and writes files, answers requests
  and asks the catalogue of oils; every decision is a call into the library.
* `tests/` runs the library on concrete values.

| module | what it holds |
| --- | --- |
| `text`, `digits`, `lists`, `order` | texts, numbers, lists and sorting |
| `json`, `files`, `records`, `failure` | documents, stored records, answers and refusals |
| `names` | where things are stored, and names that are safe |
| `cars`, `engine`, `photos`, `oil`, `proxy` | cars and what belongs to them |
| `jobs`, `workers`, `autofill` | the work, who does it, and what is filled in |
| `store`, `divisions`, `stocktake` | the shelves |
| `settings`, `chat`, `scanner` | the rest of the workshop |
| `migrate` | records of earlier days |
| `outside` | everything that is taken on trust |

A proof function whose name starts with `law_` states something that holds of
the library as a whole, such as that what was migrated once is not migrated
again, that nothing scanned in a stocktake is lost, or that a pairing token
pairs one phone.
