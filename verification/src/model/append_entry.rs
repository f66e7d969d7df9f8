use vstd::prelude::*;
use vstd::string::*;

use crate::codec::text::{decimal, u64_to_decimal_string};

verus! {

/// A batch of records to append to a range of a stream.
#[derive(Debug, Clone, Copy, Default)]
pub struct AppendEntry {
    /// Stream ID
    pub stream_id: u64,
    /// Range index
    pub index: u32,
    /// Base offset
    pub offset: Option<u64>,
    /// Quantity of nested records
    pub len: u32,
}

/// The base offset as a signed number, `-1` when there is none; an offset above
/// `i64::MAX` reads as the negative number it is as an `i64`.
pub open spec fn offset_text(offset: Option<u64>) -> Seq<char> {
    match offset {
        None => "-1"@,
        Some(v) => if v <= i64::MAX {
            decimal(v as nat)
        } else {
            "-"@ + decimal((0x1_0000_0000_0000_0000 - v) as nat)
        },
    }
}

/// How an entry reads in logs.
pub open spec fn entry_text(e: AppendEntry) -> Seq<char> {
    "{ stream_id: "@ + decimal(e.stream_id as nat) + ", index: "@ + decimal(e.index as nat)
        + ", offset: "@ + offset_text(e.offset) + ", len: "@ + decimal(e.len as nat) + " }"@
}

impl AppendEntry {
    /// The text of the entry, as logs show it.
    pub fn describe(&self) -> (t: String)
        ensures
            t@ == entry_text(*self),
    {
        let mut t = String::from_str("{ stream_id: ");
        t.append(u64_to_decimal_string(self.stream_id).as_str());
        t.append(", index: ");
        t.append(u64_to_decimal_string(self.index as u64).as_str());
        t.append(", offset: ");
        match self.offset {
            None => t.append("-1"),
            Some(v) => {
                if v <= i64::MAX as u64 {
                    t.append(u64_to_decimal_string(v).as_str());
                } else {
                    t.append("-");
                    t.append(u64_to_decimal_string(u64::MAX - v + 1).as_str());
                }
            },
        }
        t.append(", len: ");
        t.append(u64_to_decimal_string(self.len as u64).as_str());
        t.append(" }");
        t
    }
}

} // verus!
