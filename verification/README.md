# eden_logger

Structured logging whose decisions and formats are proved with [Verus](https://github.com/verus-lang/verus).

- `src/` is the verified library. It holds no global state and does no I/O: a log call gives back the
  text that is to be written and the record that is to be delivered; the exporter is a state machine
  that says what to do next and is told what came of it.
- `app/` is ordinary Rust around it: one logger for the process, the standard streams, the environment
  variable `EDEN_LOG_LEVEL`, serde, metric visitors, macro expansion on token streams, and the exporter
  on a Tokio runtime.
- `tests/` runs the library together with the crates it calls.

## The library

| Module      | Purpose                                                                      |
|-------------|------------------------------------------------------------------------------|
| `context`   | `LogContext<R>`, `LogAudience`, and how contexts merge                       |
| `fields`    | `RequestFields`, `FieldWriter`, and maps of additional fields                |
| `text`, `json`, `line` | Texts, flat JSON objects, and the display and JSON forms of a line |
| `time`, `timestamp` | Durations, the clock, and RFC 3339 timestamps                        |
| `trace`     | IDs of the current span, from fast-telemetry or OpenTelemetry                |
| `schema`    | `LogLevel`, `EdenLog<R>`, and the writers of lines                           |
| `filter`    | The levels that are emitted                                                  |
| `metrics`   | Counters of emitted records                                                  |
| `sink`      | Slots of structured sinks                                                    |
| `writer`    | Target, format and trace source                                              |
| `logger`    | A log call from its filter to its emission                                   |
| `macros`    | The arguments of log macros, and the code that they expand to                |
| `export`    | OTLP export: admission, queues, mapping, batching, retries, shutdown         |

The contracts speak of models: texts are sequences of characters, queues are sequences of records, and
a step of the export worker is a relation between two states. Theorems that relate several functions
are public proof functions whose names begin with `law_`. Among them:

- a JSON line reads back as exactly its members, whatever its texts hold;
- merging contexts is associative, and a blank context changes nothing;
- lanes take turns, and the records of a lane keep their order;
- parting a rejected batch keeps every record, in order;
- a step of the worker loses no record without counting it.

Calls into other crates stand behind small functions whose bodies Verus does not read. Their doc
comments say what is taken on trust of each.
