# nib

The logic of the nib editor, written in Verus: executable Rust whose behaviour is stated in
contracts and proved.

- `src/` is the library. Each panel or view of the editor is a plain data type with its
  invariant; what a click, a key or a finished piece of background work does to it is a function
  with a contract. Work that has to be done outside (reading files, running git, asking a language
  server) is handed out as a request and its result is handed back, with a number where a late
  result has to be told apart. Properties that span functions are the public proof functions whose
  names begin with `law_`.
- `tests/` runs the library on concrete values.
- `app/` is the program around it: windows, input, files, processes.

Paths are texts, compared component by component. Times are numbers that the caller supplies.
Only paths in the Unix form are covered.
