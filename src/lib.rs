// A store of named objects over a flat object-store bucket: directory and
// object names map to keys under a configured prefix, listings are gathered
// page by page, and every failure is one error kind.

pub mod error;
pub mod keys;
pub mod storage;
