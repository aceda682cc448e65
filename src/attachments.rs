use vstd::prelude::*;
use vstd::string::{StrSliceExecFns, StringExecFns};

verus! {

/// Whether `p` occurs in `s` starting at position `i`.
pub open spec fn occurs_at(s: Seq<char>, p: Seq<char>, i: int) -> bool {
    0 <= i && i + p.len() <= s.len() && s.subrange(i, i + p.len()) == p
}

/// First position at or after `from` where `p` occurs in `s`, or -1.
pub open spec fn first_occurrence(s: Seq<char>, p: Seq<char>, from: int) -> int
    decreases s.len() + 1 - from,
{
    if from < 0 || from + p.len() > s.len() {
        -1
    } else if occurs_at(s, p, from) {
        from
    } else {
        first_occurrence(s, p, from + 1)
    }
}

/// The object-store key of a receipt stored at `url`: the part of the
/// address from the first `receipts` on, or nothing if it has none.
pub open spec fn key_of_url(url: Seq<char>) -> Seq<char> {
    let at = first_occurrence(url, "receipts"@, 0);
    if at >= 0 {
        url.subrange(at, url.len() as int)
    } else {
        Seq::empty()
    }
}

/// The object-store key of the receipt image stored at `url`, under which it
/// is deleted.
pub fn receipt_key(url: &str) -> (r: String)
    ensures
        r@ == key_of_url(url@),
{
    let marker = "receipts";
    proof {
        reveal_strlit("receipts");
    }
    let n = url.unicode_len();
    let m = marker.unicode_len();
    if m > n {
        return String::new();
    }
    let last = n - m;
    let mut i: usize = 0;
    while i <= last
        invariant
            n == url@.len(),
            m == marker@.len(),
            m == 8,
            marker@ == "receipts"@,
            last == n - m,
            i <= last + 1,
            first_occurrence(url@, marker@, 0) == first_occurrence(url@, marker@, i as int),
        decreases last + 1 - i,
    {
        let window = url.substring_char(i, i + m);
        let here = String::from_str(window) == String::from_str(marker);
        if here {
            return String::from_str(url.substring_char(i, n));
        }
        i += 1;
    }
    String::new()
}

} // verus!
