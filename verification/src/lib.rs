//! Capture-side core of a desktop notification history: decoding of the
//! variant-encoded `Notify` call payload, reconstruction of embedded icon
//! bitmaps, and an append-only, line-oriented log store with point deletion.

pub mod icon;
pub mod num;
pub mod record;
pub mod store;
pub mod text;
pub mod value;
