# koharu

The library of Koharu's batch translation: it takes comic book archives apart, follows the
translation of their pages, and puts translated archives together. Every function in `src/` is
verified with Verus; what the library asks of other crates stands behind a few trusted items, each
of which says what it relies on.

| Module | What it holds |
| --- | --- |
| `text`, `paths`, `natural` | text, paths of Unix and Windows, and the natural order of names |
| `error`, `views` | messages with their causes, and values in terms of sequences |
| `archive`, `images` | archives in memory and pictures, through `zip`, `image`, `webp` and `base64` |
| `import` | which files are pages, and the pages of pictures and archives |
| `chapters` | where chapters are found, their covers and their metadata |
| `batch`, `job`, `progress`, `events` | a batch from its options to its report |
| `export`, `cbz`, `previews` | the files of an export, comic book archives, and small pictures |
| `workspace` | what happens when another project is opened |

The library decides and computes; it neither reads nor writes files. The program in `app/` does:
it reads contents and listings, hands them to the library as plain values, and carries out what
comes back.

Some of what is proved:

- a comic book archive holds exactly the pages and the metadata that were written into it, and its
  pages are imported again in their order; left out is one case in which the format itself is
  ambiguous, and which takes a count or a size that is exactly the largest that has room;
- numbers in names are ordered by their value, wherever they stand;
- the pages of a project never share a file or an entry of an archive;
- a translated chapter keeps the name of its source and never takes its place;
- a second run over the same outputs translates again only chapters that failed;
- a report accounts for every chapter, and progress reaches its totals when every page has gone
  through every stage.
