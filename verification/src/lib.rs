//! A registry of world-country facts assembled from reference tables found in
//! independent documents: sovereign states, territorial codes, currencies,
//! capitals, calling codes and languages, keyed by one canonical identifier
//! per territory.

pub mod builders;
pub mod calling_codes;
pub mod capital;
pub mod currency;
pub mod dom;
pub mod extract;
pub mod flag;
pub mod ident;
pub mod language;
pub mod region;
pub mod registry;
pub mod retry;
pub mod scan;
pub mod sovereign_state;
pub mod text;
pub mod un_nations;

pub use calling_codes::CallingCode;
pub use capital::Capital;
pub use currency::{Currency, Fraction};
pub use flag::Flag;
pub use ident::Identifier;
pub use language::{Iso639, Language};
pub use region::{region_by_opt, Iso3166_1, Iso3166_2, Region, Tld};
pub use sovereign_state::SovereignState;
pub use un_nations::UNMember;
