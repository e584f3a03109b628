//! Parsers for text that programs and people write by hand.
//!
//! The main one reads a curl command line, as a shell history or a browser hands it
//! out, into the elements of the request that it describes: see [`curl`]. The others
//! read smaller things: colours and points, HTTP requests, lines of logs, ledgers,
//! itineraries and the records of weather stations.
//!
//! Every parser is a function of its text alone, and its contract says what it reads
//! for every text.

pub mod almanac;
pub mod color;
pub mod curl;
pub mod float;
pub mod http;
pub mod inclusion;
pub mod iot;
pub mod iot_log;
pub mod itinerary;
pub mod ledger;
pub mod number;
pub mod point;
pub mod scan;
pub mod text;
pub mod transaction;
pub mod trip;
pub mod url;
pub mod weather;
