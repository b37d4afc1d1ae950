# frontend

Serving and calling JSON APIs over HTTP. The library in `src/` is verified with
Verus; `app/` holds what runs on hyper and tokio around it.

- `src/qstring.rs`: query strings: percent-decoding of the request target,
  the `(name, value)` pairs, the values of one key, and the map of all keys.
- `src/jresponse.rs`: JSON responses, their status codes and the replies they
  are answered with.
- `src/server.rs`: what a dispatcher decides, the one-off reply sender, the
  steps of the listening loop, and how serving ends.
- `src/debug.rs`: the routes of the debug server and what it makes of a request.
- `src/client.rs`: client requests, the URI they go to, their errors, and the
  joining of a reply's body.
- `app/`: the HTTP server and clients, JSON serialization, and the debug server.
