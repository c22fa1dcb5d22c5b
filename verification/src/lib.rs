//! Whitespace-separated values: a line-oriented table format in which fields are separated by
//! whitespace, `-` is the null field, `#` opens a comment, and a double-quoted string writes a
//! quote as `""` and a line break as `"/"`.
//!
//! What tokenizing a line means is defined once, as a transducer over the characters of the
//! line (`transducer`). The crate offers several tokenizers that are built in different ways
//! (`first`, `state`, `mealy`, `moore`, `typestate`, `nom`, `split`), and each of them is
//! proved to give what the transducer gives. Documents are assembled from lines either line by
//! line, where every line keeps its own row or error, or as a whole, where the first error
//! ends the parse (`io`).
pub mod agreement;
pub mod cutting;
pub mod data_model;
pub mod first;
pub mod io;
pub mod laws;
pub mod mealy;
pub mod moore;
pub mod nom;
pub mod split;
pub mod state;
pub mod tabulate;
pub mod take1;
pub mod text;
pub mod transducer;
pub mod typestate;

pub use data_model::{Error, ErrorKind, Parser, Wsv, WsvValue};
pub use first::parse_line;
pub use io::{
    calculate_stuff, count_stuff, from_reader, from_reader_with_parser, from_string, from_string_with_parser,
    parse_from_memory, strict_with_parser,
};
