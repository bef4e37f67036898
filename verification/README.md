# backend

The logic of a Wake-on-LAN service and its home-network companions, written
in Verus with its contracts proved:

- `wol`: reading MAC addresses, building the magic packet, waking a device by
  MAC address, IP address or host name.
- `ipv4`: dotted-decimal IPv4 addresses, read and written.
- `ip_manager`, `ip_common`: reading the output of `ip link show` and
  `ip addr show`; looking devices up by address or name.
- `network_scanner`: the hosts a scan of the local /24 networks probes, and
  reading the replies of `arp`, `getent hosts` and `nslookup`.
- `server`: the web server's settings, device list and wake requests.
- `home_client`: the client's command line.
- `home_server`: the device list of the desktop application.
- `services`, `ip_server`: the IP service's tables of clients.
- `mdns`: names used in mDNS host-name lookups.
- `text`: character-level splitting, trimming, words and lines.

`app/` holds the programs around the library: the web server (`main.rs`),
command execution, network probing, the mDNS lookup, the home client and the
IP service's client side.
