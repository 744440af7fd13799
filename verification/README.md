# rproxy

A debugging HTTP proxy. Applications send their traffic through it; every request and response
can be seen, recorded, held, changed or answered in the origin's place.

The library in `src/` is written in Verus: each function has a contract, and the contracts are
proved. Those of the functions that call outside crates are not: they are believed, and say in
their comments what they claim of the crate. The program in `app/` does the input and output that
the library decides on.

## Layout

- `model`, `headers`, `text`, `body`, `wire`, `target`: what an exchange is made of
- `pipeline`, `tools`: the chain of interceptors, and the tools that run in it
- `breakpoints`, `events`, `ids`: what is held, what is told, and how things are numbered
- `flow`, `tunnel`: what to do next for a request and for a CONNECT
- `cert`, `der`, `mitm`: the certificate authority, what its certificate says, and the hosts that
  it stands in for
- `json`, `har`, `mcp`, `log`, `gui`: how the recorded traffic is shown
- `app/`: the daemon, the server for agents and the window

## Running

```
rproxy --port 8888                      # a daemon with a log on the terminal
rproxy --port 8888 --har session.har    # the same, with an archive on exit
rproxy --port 8888 --mcp                # with a server for an agent on standard input and output
rproxy --tools tools.toml               # with tools
rproxy --gui                            # a window; RPROXY_PORT names its port
```

The authority is kept in `~/.rproxy`, or in the directory that `RPROXY_CA_DIR` names.
