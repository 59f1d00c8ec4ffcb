# L4 load bearer

A layer-4 load balancer: it accepts TCP clients, sends each of them to a backend
server and passes the bytes of either side on to the other.

* `src/` is the verified library. It decides which server a client is sent to,
  what is to be done with the sockets of a session when one of them is ready, and
  when a session is closed. It performs no input or output.
* `app/` is the program around it: configuration, health checks, logging, and the
  event loops that perform what the library asks for.
* `tests/` runs the library on concrete values.

The program reads `config.toml` in its working directory, which holds a
`bind_address` and a list of `backends`, each with an `address`.
