//! DAB receiver building blocks: UEP depuncturing, packet-mode reassembly,
//! MPEG Layer II frame synchronisation and front-end rate planning.

pub mod puncture;
pub mod uep;
pub mod crc;
pub mod packet;
pub mod packet_laws;
pub mod mp2;
pub mod resample;
