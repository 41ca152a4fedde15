# Nexus

An experimental alternative web: sites are named by petnames and keys, pages
are content-addressed, and what a site says of its pages is signed. The logic
is a Verus library; every function in it carries a contract that Verus proves.

- `src/` is the library.
  - `protocol`, `transport`: the text protocol, its lines and its bodies
  - `nxp`: the binary framing and its resource records
  - `content`, `renderer`: pages, what is valid, and how they look as text
  - `identity`, `keys`: signed records, delegations, key rotation
  - `resolver`: from names to routes, verified endpoint records, zone records
  - `storage`: content-addressed blobs, and packs of them
  - `server`: what an origin server holds and answers
  - `browser`: navigation under a pin, the offline cache, mirrors, sessions,
    and the state of the full-screen browser
  - `dht`: a Kademlia experiment whose records pass the resolver's verification
  - `webvm`: the capability broker
  - `cli`: command lines and the prompt
  - `text`, `bytes`, `table`, `byte_map`, `hex_text`, `digest`, `json`: what the
    others are built from
- `tests/` runs the library.
- `app/` is the programs around it: sockets, files, JSON, the terminal.

The contracts speak of mathematical values: most types have a view, and each
operation a spec function that says what it comes to. Public proof functions
whose names start with `law_` state what holds across operations. What is taken
on trust of other crates stands in small functions marked as such, each with a
comment that says what is claimed.
