//! A zero-copy tokenizer for plain delimited text: fields separated by
//! commas, lines ended by `\n` or `\r\n`, no quoting and no escaping.
//!
//! A [`csv_simd_bespoke::CsvSimdCursor`] walks a borrowed byte buffer field
//! by field and line by line. Every delimiter lookup goes to one of three
//! interchangeable search kernels ([`kernel::Kernel`]), all proved to
//! return the same offset. What each operation does is stated over a
//! mathematical model of the cursor ([`model::CursorView`]); [`laws`] holds
//! what follows for every buffer.

pub mod csv_simd_bespoke;
pub mod kernel;
pub mod laws;
pub mod markers;
pub mod model;
pub mod simd_read;
