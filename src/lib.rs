//! Extraction of class and structure sizes from DWARF debug information, and
//! comparison of the resulting name-to-sizes mapping with a reference listing.
pub mod names;
pub mod sizes;
pub mod extract;
pub mod compare;
pub mod sections;
pub mod reference;
