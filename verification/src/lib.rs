//! A morphological analyzer for an agglutinative language: it recovers the
//! root form of an inflected word by iteratively stripping recognized
//! prefixes and suffixes according to an ordered rule catalog, validating
//! candidate stems against a root-word dictionary.

pub mod index;
pub mod precedence;
pub mod rules;
pub mod stemmer;
pub mod words;
