# ZeroSh

The core of ZeroSh, a small job-control shell, with its behaviour stated in contracts and proved
by Verus.

* `src/` is the library. It takes command lines apart, keeps the table of jobs, process groups and
  processes, decides what each command line, each answer of the operating system and each change
  of a child leads to, and words what the user reads. It does no input or output: what is to be
  done is handed out as values.
  * `text`, `number`: white space, words, fields, decimal numbers.
  * `parser`: command lines as pipelines of commands.
  * `process`, `job`, `os`, `message`, `error`: the plain data.
  * `table`: the state of the worker as mathematics, and what each event makes of it.
  * `worker`, `launch`: the worker itself, and the start of a job step by step.
  * `shell`: the conversation between the user and the worker.
  * `laws`: what holds of the shell as a whole.
* `tests/` runs the library on concrete values.
* `app/` is the shell on a real terminal: threads, signals, the line editor and the system calls.
