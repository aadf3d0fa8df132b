# idmon

A monitor for the downloads of `idm.internet.download.manager.plus`. It reads the notifications
of the download manager, one JSON text a line, from an ntfy stream or from a TCP socket. It keeps
a table of the downloads with their latest reports, charts their speeds, and announces through
Growl when a download starts, stops or is complete.

The library, in `src/`, is written in Verus. Its functions state what they do in `requires` and
`ensures`, over the models of the types.

| module             | holds                                                                |
| ------------------ | -------------------------------------------------------------------- |
| `monitor`, `laws`  | the monitor, and what holds of it over more than one report          |
| `table`, `store`   | the table of downloads as a sequence, and as an `IndexMap`           |
| `message`, `json`  | from a line to the report that it carries                            |
| `speed`, `clock`   | reported speeds and units; times as text                             |
| `feed`             | the stream: its address, its lines, and when to connect anew         |
| `growl`            | alerts, and the request that announces one                           |
| `chart`, `screen`  | the text of the charts, the rows and the title of the table          |
| `config`           | the settings that hold, and the keys that end the program            |
| `text`             | cutting, trimming and joining text                                   |

Calls into other crates stand in small functions marked `external_body`. The doc comment of each
says which function it calls and what is taken for granted of it.

The program, in `app/`, reads from the network, the terminal and the configuration file, computes
with floating-point speeds, draws, and sends notifications.
