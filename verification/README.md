# netprobe

Asks the local link who holds an IP address: an ARP request for IPv4, a
neighbor solicitation for IPv6, or a DHCP discover.

- `src/` is the verified library (Verus). It picks the interface that
  reaches a target (`util`), builds the request frames byte by byte and
  reads the answers back (`arp`, `ndp`, `dhcp`), with contracts that state
  each byte of what is sent and exactly what is read from a reply.
- `app/` is the command-line program around it: argument parsing, the
  system's interface list, raw Ethernet channels and UDP sockets, logging.
- `tests/` runs the library on concrete frames.
