# dabradio

Verified building blocks of a DAB receiver.

- `src/puncture.rs`, `src/uep.rs`: puncturing vectors, the standard UEP
  profile table and UEP depuncturing, with the table's consistency and the
  depuncture/puncture round trip proved.
- `src/crc.rs`: the CRC-16 of packet mode.
- `src/packet.rs`, `src/packet_laws.rs`: packet-mode reassembly of MSC data
  groups, data-group header stripping, packet construction, and the laws that
  tie them together.
- `src/mp2.rs`: MPEG Layer II frame synchronisation and the 48 kHz stereo
  conversion of decoded PCM.
- `src/resample.rs`: the choice of resampling path for an SDR input rate.
- `app/`: the floating-point signal processing around the library (Layer II
  decoding with `oxideav-mp2`, complex resampling with `desperado`).
