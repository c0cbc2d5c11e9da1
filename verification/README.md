# gash

A small command shell (`gash`) and two toy web servers (`zhttpto`,
`zhtta`), with their decision logic verified in Verus.

- `src/text.rs`: decimal numerals, splitting at a separator, words of a
  line, search and replacement in strings, joining.
- `src/shell.rs`: the shell's reading of an input line (blank lines,
  `exit`, `!!`, history, background jobs).
- `src/plan.rs`: `matchProcess`, the plan a command comes to (history,
  `cd`, pipes, `>` and `<`), the numbered history, the targets of `cd`.
- `src/server.rs`: trusted client networks, ranking and queueing of
  requests, request paths, greeting page and server-side includes.
- `app/`: the programs themselves: processes, files, sockets and threads.
  `gash` (default), `gash zhttpto` and `gash zhtta`.
