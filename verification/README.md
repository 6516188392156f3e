# session-score-plugin

Scores the sessions of a coding assistant by their transcripts, and browses the scores on the
terminal.

A session gets a score of up to 100, either by a scoring service or, where there is no key for one,
by rules. The rules look for risky commands and traces of credentials, for corrections by the
user, for tests, commits and pull requests, and for wasted tool calls. A score is stored beside the
transcript as `<session-id>.score.json`.

## Layout

`src/` is the library, written and proved in Verus:

| Module | What it holds |
|--------|---------------|
| `text` | texts as sequences of characters: search, trimming, lines, padding, numbers |
| `single` | ratios of counts in single precision, carried out in integers |
| `json`, `time` | values of `serde_json` and times of `chrono`, seen as what they hold |
| `session` | sessions, the entries of transcripts, the transcript as text |
| `discovery` | which files are sessions, what they tell, which one is wanted |
| `signals` | what a transcript shows |
| `heuristic` | the scores and the narrative that follow from the signals |
| `score` | scores, the request to the scoring service, and what its reply comes to |
| `scoring` | which of the two scores a session, and what it gives or asks |
| `hook` | the Stop hook in the assistant's settings |
| `animation` | grades, and the steps in which a score is revealed |
| `particles` | what a celebration is made of |
| `browser` | the state of the session browser, and what each key does |
| `screen` | what the browser writes |

The laws that hold of a module stand in it as public proof functions named `law_…`.

`app/` is the program around the library: arguments, files, the network and the terminal.
`tests/` holds the tests.

## Usage

```
session-score-plugin                        # browse the sessions
session-score-plugin auto-score             # score the session that was active last
session-score-plugin auto-score --session-id <uuid>
session-score-plugin install                # score every session when it ends
```
