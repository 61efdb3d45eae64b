# photolabeler

A small web application that catalogues the image files found in registered
directories, lets them be labelled, moved, renamed and deleted, and serves
them over HTTP.

- `src/` is the verified library (Verus): the records (`query`, `db`), text and
  path rules (`text`, `paths`), the error and its HTTP answer (`error`), MIME
  guesses (`mime`), and the decisions of the operations and request handlers
  (`state`, `routes`, `backend`): naming uploads without collisions, applying
  edits, walking up to a directory's root, building the directory tree,
  reading checkbox forms, and the headers an image is served with.
- `app/` is the server around it: the database queries, the file system,
  templates, and the HTTP routes.
- `tests/` runs the library on concrete values.
