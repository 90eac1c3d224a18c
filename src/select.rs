//! Index entry while a node is being selected by its pre-order number.

use vstd::prelude::*;

verus! {

/// The value of decimal digit `c`, if it is one.
pub open spec fn digit_value(c: char) -> Option<nat> {
    if '0' <= c && c <= '9' {
        Some((c as u32 - '0' as u32) as nat)
    } else {
        None
    }
}

/// The selected index after typing `c`: `c` appended to the decimal digits of
/// `index` if that names a node, else `c` alone if that does, else `index`.
/// A character that is not a digit leaves `index` as it is.
pub open spec fn appended_index(index: nat, c: char, heap_size: nat) -> nat {
    match digit_value(c) {
        None => index,
        Some(d) => if index * 10 + d < heap_size {
            index * 10 + d
        } else if d < heap_size {
            d
        } else {
            index
        },
    }
}

/// Append a digit to `index` if valid, otherwise return a fallback value.
pub fn append_index(index: usize, c: char, heap_size: usize) -> (r: usize)
    ensures
        r == appended_index(index as nat, c, heap_size as nat),
{
    if c < '0' || c > '9' {
        return index;
    }
    let c_val: usize = (c as u32 - '0' as u32) as usize;
    if let Some(shifted) = index.checked_mul(10) {
        if let Some(new_index) = shifted.checked_add(c_val) {
            if new_index < heap_size {
                return new_index;
            }
        }
    }
    if c_val < heap_size {
        return c_val;
    }
    index
}

} // verus!
