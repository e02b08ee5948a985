# cookie-snatch

Capture a website's session cookies by driving an already-installed browser through its remote
protocol: Chromium-family browsers over the Chrome DevTools Protocol, Firefox over WebDriver BiDi.
A fresh browser in a throwaway profile is started, a person logs in, and the resulting cookies are
read over the debug protocol, `HttpOnly` ones included.

- `src/` is the library, verified with Verus: which browser to start and with what arguments, what
  to say to it and what its replies mean, when the cookies of a login have settled, and what to give
  back when something fails. It holds no socket, process, file or clock; each conversation with the
  outside is a value that hands out the next task and goes on from its result.
- `app/` is the rest: processes, files, sockets, clocks, and a command line.
- `tests/` runs the library on concrete values.

| Module | What it decides |
|--------|-----------------|
| `browser` | The products, and the protocol that drives each. |
| `discover` | Where each product is looked for; which one the system prefers. |
| `session` | Launching, reading, waiting for a cookie, tearing down. |
| `chrome`, `firefox` | The two protocols: arguments, calls, opening the login page, cookies. |
| `transport` | Numbered requests and the replies that belong to them. |
| `snapshot` | When two reads hold the same cookies. |
| `cookie` | A cookie, and how it is shown without its secret. |
| `menu` | Choosing a browser by its number. |
| `error`, `json`, `text` | Errors, JSON values and texts. |

A captured value is a live session: treat it as a credential.
