//! Audio-to-lighting bridge core: reassembles audio callback chunks into
//! fixed-length analysis frames, summarizes spectral magnitude data into 32
//! frequency buckets scaled to the unsigned 16-bit range, encodes the result
//! as a fixed 104-byte sensor-data frame, and manages the set of UDP
//! destinations the frame is sent to. All I/O (audio capture, the frequency
//! transform itself, socket sends) lives outside this crate; the library
//! works on plain values and proves the data path exact.

pub mod bucketizer;
pub mod collector;
pub mod protocol;
pub mod sensor;
pub mod spectrum;
