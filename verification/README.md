# http_server

A small HTTP/1.1 server. The library (`src/`) holds what the server decides,
with contracts that Verus proves:

- `text`: whitespace classes, trimming, splitting and ASCII case-insensitive
  comparison on `str`, each stated over the characters.
- `headers`, `encoding`: header names and content encodings, recognised
  without regard to case; gzip compression through `flate2`.
- `request`: the request line, the header block (fed one line at a time), and
  the accessors that routing reads, such as the accepted encodings.
- `response`: the status line, header lines and the exact bytes of a
  response, with the body's length written through `itoa`.
- `client`: the routes (`/`, `/echo/{msg}`, `/user-agent`, `/files/{name}`),
  the steps that follow a file read or write, and when a failure is answered
  with a server error.
- `error`: the server's errors and how failed I/O is classified.

`app/` is the program: command line, sockets, file access, and the loop that
reads a request, asks the library what to do, performs it and sends the bytes.
