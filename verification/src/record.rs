use vstd::prelude::*;

verus! {

/// The fixed numeric template assigned to the `value` column at population.
pub const TEMPLATE_VALUE: u64 = 0xC045_0000_0000_0000;

/// The fixed numeric template assigned to the payload columns at population,
/// one constant per column.
pub const TEMPLATE_A: u64 = 0xBFF1_9999_9999_999A;

pub const TEMPLATE_B: u64 = 0xC001_9999_9999_999A;

pub const TEMPLATE_C: u64 = 0xC00A_6666_6666_6666;

pub const TEMPLATE_D: u64 = 0xC011_9999_9999_999A;

pub const TEMPLATE_E: u64 = 0xC016_0000_0000_0000;

pub const TEMPLATE_F: u64 = 0xC01A_6666_6666_6666;

pub const TEMPLATE_G: u64 = 0xC01E_CCCC_CCCC_CCCD;

pub const TEMPLATE_H: u64 = 0xC021_9999_9999_999A;

/// One row of the store.
///
/// The `value` column and the eight payload columns `a`..`h` hold
/// order-preserving integer keys for the host's numeric column values: the
/// host encodes each numeric column value as a `u64` key whose integer order
/// and equality agree with the numeric order and equality of the value it
/// stands for. `time_ms` is a timestamp in milliseconds. `name` is the row's
/// variable-length text attribute; each record owns its own text buffer.
#[derive(Debug)]
pub struct Record {
    pub id: u32,
    pub value: u64,
    pub a: u64,
    pub b: u64,
    pub c: u64,
    pub d: u64,
    pub e: u64,
    pub f: u64,
    pub g: u64,
    pub h: u64,
    pub time_ms: u64,
    pub name: String,
}

impl Clone for Record {
    fn clone(&self) -> (r: Self)
        ensures
            r == *self,
    {
        Record {
            id: self.id,
            value: self.value,
            a: self.a,
            b: self.b,
            c: self.c,
            d: self.d,
            e: self.e,
            f: self.f,
            g: self.g,
            h: self.h,
            time_ms: self.time_ms,
            name: self.name.clone(),
        }
    }
}

/// Holds when the numeric columns of `r` carry the fixed population template
/// and its timestamp is zero.
pub open spec fn has_template_payload(r: Record) -> bool {
    &&& r.value == TEMPLATE_VALUE
    &&& r.a == TEMPLATE_A
    &&& r.b == TEMPLATE_B
    &&& r.c == TEMPLATE_C
    &&& r.d == TEMPLATE_D
    &&& r.e == TEMPLATE_E
    &&& r.f == TEMPLATE_F
    &&& r.g == TEMPLATE_G
    &&& r.h == TEMPLATE_H
    &&& r.time_ms == 0
}

} // verus!
