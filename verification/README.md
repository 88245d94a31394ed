# vandelay

Moves mail, contacts, calendars and files of an account into an archive, and
from an archive to a server. The library in `src/` holds the rules of that: how
what a source says is read, what is stored of it, what is asked next, what is
counted and when a run gives up. Its contracts are checked by Verus.

- `text`, `json`, `encoding`, `digest`, `civil`, `instant`, `delay`, `links`,
  `order`, `tree`: values that the rest is made of.
- `exchange`, `exchange_ews`, `exchange_graph`: contacts, events and recurrence
  as Exchange and Microsoft Graph describe them, turned into JSContact and
  JSCalendar; the client's decisions after each request.
- `jmap`: sessions, requests and their repetition, blobs within objects.
- `dav`: the search for collections.
- `imap`: names of mailboxes.
- `db`: rules that the archive keeps.
- `sync`: the imports and the export, as steps that a program performs one after
  the other.

`app/` is the program: arguments, HTTP, SQLite and files. `tests/` runs the
library.

What the outside crates do is stated in the contracts of small wrappers, each
with a comment that names the function it calls; everything else is proved.
