# ddns6

A dynamic DNS client for several hosts at once, for IPv4/IPv6 dual stack.
Addresses are configured per host and may be put together from parts: a
prefix taken from a network interface, a suffix given as a fixed address,
masks and prefix lengths.

Layout:

- `src/` — the verified library (Verus):
  - `config.rs`, `config/ipv4.rs`, `config/ipv6.rs`: the configuration model and
    how an address configuration is evaluated from the answers of its sources;
  - `ipaddr_source/`: reading candidate addresses out of `ip addr show` output,
    the reachability filter, the web source's reply;
  - `protocol/dyndns2.rs`: update URL, authorization header and reply check of
    the dyndns2 protocol;
  - `provider/`: the Hurricane Electric provider and the provider registry;
  - `ip.rs`: addresses as octets and their big-endian values, address text and
    UTF-8 decoding;
  - `update.rs`: how the update of one host ends and the line that reports it.
- `app/` — the program: reading the configuration, running `ip`, HTTP requests,
  and the update loop every five minutes.
- `tests/` — tests of the library.
