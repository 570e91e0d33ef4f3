# shipgate

A quiz you run before marking a pull request ready for review. It asks about the parts of the
diff that an assistant wrote, grades the answers, and records what was asked, answered and
disputed. It is not a lock: clearing a quiz is recorded, and the pull request is left to its
author.

`src/` is a Verus library. Everything that decides or computes stands there with a contract:

| module | what it holds |
|---|---|
| `text` | lines, words, pieces, numbers, padding and order of texts |
| `digest`, `json` | SHA-256 digests in hexadecimal; JSON documents |
| `git`, `gh` | what git and gh are asked, and what their answers mean: hunks, anchors, call sites |
| `authorship` | which hunks come from commits that carry the assistant's trailer |
| `triage` | whether a change deserves a quiz, and how many questions it is worth |
| `context` | call sites, surfaces, shadowed dispatch, how the project is tested and run |
| `llm` | prompts, replies, labels, citations, the stand-ins for the model |
| `db` | the record of gates, questions, attempts and obligations |
| `gate` | coverage, the pass rule, and a run from the diff to its outcome |
| `dash`, `tui` | the dashboard and the quiz screen: state, keys, results, panes |
| `config` | settings and the base branch |

`app/` is the program around it: arguments, processes, files, SQLite and the terminal. It is told
the assistant's name by `--assistant` or `SHIPGATE_ASSISTANT`; commits whose `Co-Authored-By`
trailer begins with that name are the assistant's, and the program that makes the model calls is
expected under the same name in lower case. Without a name the whole diff is quizzed, with
stand-ins for the model.

Scores are held in tenths: 0, 3, 6 and 9 for `wrong`, `restates`, `partial` and `demonstrates`.
