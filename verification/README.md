# crossload

Keeps books in step between a computer, a Kobo and a reader that runs CrossPoint.

`src/` is the library. It holds the rules: which files are
books and what they say of themselves, which copies are the same book, what may be
copied, repaired or deleted, how a book is prepared for the reader's screen, turned
into a kepub, corrected or converted from a PDF, what is asked of a reader and what
its answers mean, and what the terminal interface shows and does. Every function
there states in its contract what it returns, and Verus proves it.

`app/` is the program around it: files, the network, the Kobo's database, the
terminal, and the geometry of PDF pages, which is floating point.

`tests/` runs the library on concrete values.

## Where things are

| Module | |
| --- | --- |
| `text`, `paths`, `names`, `order`, `values`, `position` | characters, paths, file names, sorting, copying and comparing values, places in a series |
| `archive`, `xml`, `digest` | what comes from outside crates: archives, documents, digests |
| `format`, `epub`, `kepub`, `metadata`, `pdf` | what a book is, and what is made of it |
| `prepare`, `profile`, `copy` | device copies, and copying to a card |
| `crosspoint`, `inventory`, `sync` | the reader, what it holds, and bringing it up to date |
| `kobo`, `adobe`, `opds` | where books come from |
| `books`, `cache`, `history`, `config` | the library across all places, and what is kept between runs |
| `tui`, `cli` | the terminal interface and the command line |

Laws that hold of the library as a whole are public proof functions beside what
they speak of; those of the interface are in `tui::laws`, those of corrected
metadata in `metadata::laws`.
