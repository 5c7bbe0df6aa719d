# scholar_rss

A server that turns recent scholarly publications of chosen authors and journals into one RSS
feed, newest first. The publications come from [OpenAlex](https://openalex.org).

`src/` is the library, verified with Verus. `app/` is the server around it: sockets, HTTP
requests and the configuration file. `tests/` runs the library on concrete values.

| Module     | What it holds                                                              |
|------------|----------------------------------------------------------------------------|
| `serve`    | the steps in which a request is answered                                    |
| `request`  | from URL parameters and configuration to the feed that is asked for        |
| `params`   | the parameters of a URL                                                     |
| `config`   | the feeds configuration                                                     |
| `queries`  | the URLs of the questions put to OpenAlex                                   |
| `openalex` | records of OpenAlex and what identifiers resolve to                         |
| `abstracts` | abstracts out of the index of their words                                  |
| `encoding` | how many bytes a text may take in a URL                                     |
| `works`    | merging publications: united, each id once, newest first                    |
| `channel`  | the RSS channel of a feed and its items                                     |
| `cache`    | the channels that were built lately                                         |
| `reply`    | the HTTP response                                                           |
| `dates`    | recency windows and RFC 2822 timestamps                                     |
| `calendar` | the numbers, the dates and the texts of days                                |
| `cli`      | the command line                                                            |
| `text`     | white space, path segments, decimal numbers, joining and ordering           |

Functions marked `external_body` call `chrono`, `url` and `rss`. What their contracts claim of
those crates is believed, not proved; each says so above itself.

Run the server with `scholar_rss [address] [--config path]`. The address is `127.0.0.1:3005` and
the path `feeds.toml` unless given; `GSRF_CONFIG` names the path too.
