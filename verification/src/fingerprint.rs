use vstd::prelude::*;
use crate::chars::{chars_of, opt_str_view};

verus! {

/// One feed entry, reduced to the fields the engine reads. Only `link`
/// takes part in identity; `title` and `description` ride along for the
/// caller that formats notifications.
pub struct Entry {
    pub link: Option<String>,
    pub title: Option<String>,
    pub description: Option<String>,
}

/// 64-bit FNV-1a offset basis.
pub const FNV_OFFSET: u64 = 0xcbf29ce484222325;

/// 64-bit FNV-1a prime.
pub const FNV_PRIME: u64 = 0x100000001b3;

/// One FNV-1a round: fold one Unicode scalar value into the accumulator.
pub open spec fn fnv1a_step(h: u64, c: char) -> u64 {
    vstd::wrapping::u64_specs::wrapping_mul(h ^ (c as u64), FNV_PRIME)
}

/// FNV-1a over a sequence of characters, starting from the offset basis.
pub open spec fn fnv1a(s: Seq<char>) -> u64
    decreases s.len(),
{
    if s.len() == 0 {
        FNV_OFFSET
    } else {
        fnv1a_step(fnv1a(s.drop_last()), s.last())
    }
}

/// Identity of a link: FNV-1a of its characters; an absent link maps to a
/// fixed sentinel value.
pub open spec fn fingerprint_of(link: Option<Seq<char>>) -> u64 {
    match link {
        Option::Some(s) => fnv1a(s),
        Option::None => 0u64,
    }
}

/// Identity of an entry: a function of its link field alone.
pub open spec fn entry_fingerprint(e: Entry) -> u64 {
    fingerprint_of(opt_str_view(e.link))
}

fn fnv1a_chars(v: &Vec<char>) -> (h: u64)
    ensures
        h == fnv1a(v@),
{
    let mut h: u64 = FNV_OFFSET;
    let mut i: usize = 0;
    while i < v.len()
        invariant
            i <= v@.len(),
            h == fnv1a(v@.take(i as int)),
        decreases v@.len() - i,
    {
        let x: u64 = h ^ (v[i] as u64);
        h = x.wrapping_mul(FNV_PRIME);
        i = i + 1;
        proof {
            assert(v@.take(i as int).drop_last() =~= v@.take(i as int - 1));
        }
    }
    proof {
        assert(v@.take(v@.len() as int) =~= v@);
    }
    h
}

/// Derives the stable fingerprint of one entry from its link alone.
pub fn fingerprint(e: &Entry) -> (h: u64)
    ensures
        h == entry_fingerprint(*e),
{
    match &e.link {
        Option::Some(s) => {
            let v = chars_of(s.as_str());
            fnv1a_chars(&v)
        },
        Option::None => 0u64,
    }
}

/// The fingerprint depends only on the link: two entries whose links agree
/// have the same fingerprint, whatever their titles or descriptions hold.
pub proof fn lemma_fingerprint_link_only(a: Entry, b: Entry)
    requires
        opt_str_view(a.link) == opt_str_view(b.link),
    ensures
        entry_fingerprint(a) == entry_fingerprint(b),
{
}

} // verus!
