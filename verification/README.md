# EPUB image embedder

Moves the remote images of an EPUB file into the file. Every `<img/>` that refers
to an address on the web is pointed at a picture in the book; the pictures are
downloaded through a cache, scaled down to what an e-reader shows, turned grey and
written anew.

- `src/` is the library, verified with Verus. It reads and rewrites pages and the
  package file (`xml`, `embed_images`), chooses the picture and its place
  (`candidates`, `location`, `images`), decides the steps of a download and of the
  work on a picture (`download`, `downloader`, `image_optimizer`), says what the
  caches on disk hold (`disk_cache`) and what goes into the new book (`book`).
- `app/` is the program around it: the command line, archives, databases, the
  network and threads.
- `tests/` runs the library on concrete books, pictures and downloads.

A download and the work on a picture are state machines: a state says what has to
be done next, and `step` takes what came of it. The program does the reading and
writing, the library the deciding.
