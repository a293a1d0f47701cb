# lint

A Markdown style linter whose library is verified with Verus.

`src/` is the library: the document model (lines, trailing newlines, and the blocks a Markdown
parser finds, placed on lines), the nine rules (MD001, MD009, MD010, MD012, MD013, MD018, MD022,
MD025, MD047), the output format and exit-code policy, and two state machines: the run over the
command line's inputs, and the walk of one directory. Each rule's `check` states its findings
exactly, as a function of the document; the run and the walk state what they decide for every
answer they can receive.

`app/` is the command-line program around it: argument parsing, the file system, and the
standard streams. It performs the actions the state machines ask for and hands back what came of
them.

`tests/` exercises the library on concrete inputs.
