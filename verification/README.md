# momid_vpn

A small VPN relay. The server captures Ethernet frames on its internet-facing
interface, relays the UDP and TCP packets meant for the client over the
client's download connection (readdressed, xored and length-prefixed), and
sends what the client uploads to the internet from its own address.

- `src/` is the verified library: the fixed-capacity `Buffer`, the xor coding,
  the HTTP heads put around the traffic, the byte matcher that finds where an HTTP head ends,
  the Ethernet/IPv4/ARP/UDP/TCP byte layouts, the relay decisions in both
  directions with the table of ports the client uses, the client framing, and
  the ARP request and reply handling. Checksums are computed by `pnet`.
- `app/` is the program around it: packet capture and sending with
  `pnet::datalink`, the TCP connections with `tokio`, and the UDP clients.
- `tests/` runs the library on concrete packets.
