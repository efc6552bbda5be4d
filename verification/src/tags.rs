//! Tag generation: the monotonic usage counter and the generators that turn
//! counter values into token strings.
//!
//! Exclusive access to the store makes the read-then-write on the counter a
//! single atomic step here, so tags drawn by any interleaving of callers
//! come from disjoint counter ranges.

use vstd::prelude::*;
use vstd::string::StringExecFns;
use crate::errors::AuthError;
use crate::records::Grant;
use crate::records::GrantView;
use crate::store::ValueView;
use crate::typed::TypedRecordStore;
use crate::typed::be_bytes;
use crate::typed::counter_read;
use crate::typed::usage_key;

verus! {

/// Addition modulo two to the sixty-fourth: how the usage counter advances.
pub open spec fn wadd(a: u64, b: u64) -> u64 {
    if a + b <= u64::MAX {
        (a + b) as u64
    } else {
        (a + b - 0x10000000000000000) as u64
    }
}

/// Executable wrapping addition.
pub fn wrapping_add_u64(a: u64, b: u64) -> (r: u64)
    ensures
        r == wadd(a, b),
{
    if b <= u64::MAX - a {
        a + b
    } else {
        b - (u64::MAX - a) - 1
    }
}

/// Law: within one draw, distinct offsets from the same counter give
/// distinct tags' counter values, wraparound included.
pub proof fn lemma_tags_within_draw_distinct(c: u64, i: u64, j: u64)
    requires
        i != j,
    ensures
        wadd(c, i) != wadd(c, j),
{
}

/// Two draws compose: offset `b` from the advanced counter is offset
/// `a + b` from the starting counter, as long as the sum does not wrap.
pub proof fn lemma_wadd_add(c: u64, a: u64, b: u64)
    requires
        a + b <= u64::MAX,
    ensures
        wadd(wadd(c, a), b) == wadd(c, (a + b) as u64),
{
}

/// Law: a tag of one draw and a tag of the following draw come from
/// distinct counter values, provided the two draws together consume at
/// most the full counter range.  `i` indexes the first draw of width `n1`,
/// `j` the second.
pub proof fn lemma_tags_across_draws_distinct(c: u64, n1: u64, i: u64, j: u64)
    requires
        i < n1,
        n1 + j <= u64::MAX,
    ensures
        wadd(c, i) != wadd(wadd(c, n1), j),
{
    lemma_wadd_add(c, n1, j);
    lemma_tags_within_draw_distinct(c, i, (n1 + j) as u64);
}

/// Law: the tag draws of a store's lifetime yield pairwise-distinct
/// values.  `tags1` and `tags2` are what two consecutive draws return, in
/// the shape `next_tags` guarantees: the first starting at counter `c`,
/// the second at the counter the first left behind.  All returned values
/// are distinct, within each draw and across the two, as long as the draws
/// together consume at most the full counter range; by induction over
/// draws, any interleaving of callers on one store sees no tag twice.
pub proof fn lemma_draws_yield_distinct_tags(c: u64, tags1: Seq<u64>, tags2: Seq<u64>)
    requires
        tags1.len() <= u64::MAX,
        tags2.len() <= u64::MAX,
        tags1.len() + tags2.len() <= u64::MAX + 1,
        forall|i: int| 0 <= i < tags1.len() ==> tags1[i] == wadd(c, i as u64),
        forall|j: int|
            0 <= j < tags2.len() ==> tags2[j] == wadd(wadd(c, tags1.len() as u64), j as u64),
    ensures
        forall|i: int, j: int|
            0 <= i < tags1.len() && 0 <= j < tags1.len() && i != j ==> tags1[i] != tags1[j],
        forall|i: int, j: int|
            0 <= i < tags2.len() && 0 <= j < tags2.len() && i != j ==> tags2[i] != tags2[j],
        forall|i: int, j: int|
            0 <= i < tags1.len() && 0 <= j < tags2.len() ==> tags1[i] != tags2[j],
{
    assert forall|i: int, j: int|
        0 <= i < tags1.len() && 0 <= j < tags1.len() && i != j implies tags1[i] != tags1[j] by {
        lemma_tags_within_draw_distinct(c, i as u64, j as u64);
    }
    assert forall|i: int, j: int|
        0 <= i < tags2.len() && 0 <= j < tags2.len() && i != j implies tags2[i] != tags2[j] by {
        lemma_tags_within_draw_distinct(wadd(c, tags1.len() as u64), i as u64, j as u64);
    }
    assert forall|i: int, j: int|
        0 <= i < tags1.len() && 0 <= j < tags2.len() implies tags1[i] != tags2[j] by {
        lemma_tags_across_draws_distinct(c, tags1.len() as u64, i as u64, j as u64);
    }
}

/// A tag generator: turns a counter value and a grant into a token string.
///
/// The laws are what the credential lifecycle rests on: tags are non-empty,
/// never collide with the reserved counter key, and tags minted from
/// distinct counter values never coincide.
pub trait TagGenerator: Sized {
    /// The token string minted for counter value `counter` and `grant`.
    spec fn tag_spec(&self, counter: u64, grant: GrantView) -> Seq<char>;

    /// Law: a tag is non-empty and is not the reserved counter key.
    proof fn lemma_tag_wf(&self, counter: u64, grant: GrantView)
        ensures
            self.tag_spec(counter, grant).len() > 0,
            self.tag_spec(counter, grant) != usage_key(),
    ;

    /// Law: tags minted from distinct counter values never coincide,
    /// whatever the grants.
    proof fn lemma_tag_injective(&self, c1: u64, g1: GrantView, c2: u64, g2: GrantView)
        requires
            c1 != c2,
        ensures
            self.tag_spec(c1, g1) != self.tag_spec(c2, g2),
    ;

    /// Mints the token string, or fails when none can be produced.
    fn tag(&self, counter: u64, grant: &Grant) -> (r: Result<String, ()>)
        ensures
            r matches Ok(s) ==> s@ == self.tag_spec(counter, grant@),
    ;
}

/// The character for one hexadecimal digit.
pub open spec fn nibble_char(n: u64) -> char {
    if n == 0 {
        '0'
    } else if n == 1 {
        '1'
    } else if n == 2 {
        '2'
    } else if n == 3 {
        '3'
    } else if n == 4 {
        '4'
    } else if n == 5 {
        '5'
    } else if n == 6 {
        '6'
    } else if n == 7 {
        '7'
    } else if n == 8 {
        '8'
    } else if n == 9 {
        '9'
    } else if n == 10 {
        'a'
    } else if n == 11 {
        'b'
    } else if n == 12 {
        'c'
    } else if n == 13 {
        'd'
    } else if n == 14 {
        'e'
    } else {
        'f'
    }
}

/// Hexadecimal digit `i` of `c`, most significant first.
pub open spec fn nibble_of(c: u64, i: int) -> u64 {
    (c >> (((15 - i) * 4) as u64)) & 0xf
}

/// The sixteen-digit hexadecimal rendering of a counter value.
pub open spec fn hex_tag(c: u64) -> Seq<char> {
    Seq::new(16, |i: int| nibble_char(nibble_of(c, i)))
}

proof fn lemma_nibble_bound(x: u64, sh: u64)
    ensures
        (x >> sh) & 0xf < 16,
{
    assert((x >> sh) & 0xf < 16) by (bit_vector);
}

proof fn lemma_nibble_char_inj(a: u64, b: u64)
    requires
        a < 16,
        b < 16,
        nibble_char(a) == nibble_char(b),
    ensures
        a == b,
{
}

proof fn lemma_nibble_eq(c1: u64, c2: u64, i: int)
    requires
        0 <= i < 16,
        hex_tag(c1) == hex_tag(c2),
    ensures
        nibble_of(c1, i) == nibble_of(c2, i),
{
    assert(hex_tag(c1)[i] == hex_tag(c2)[i]);
    assert(hex_tag(c1)[i] == nibble_char(nibble_of(c1, i)));
    assert(hex_tag(c2)[i] == nibble_char(nibble_of(c2, i)));
    lemma_nibble_bound(c1, ((15 - i) * 4) as u64);
    lemma_nibble_bound(c2, ((15 - i) * 4) as u64);
    assert(nibble_of(c1, i) == (c1 >> (((15 - i) * 4) as u64)) & 0xf);
    assert(nibble_of(c2, i) == (c2 >> (((15 - i) * 4) as u64)) & 0xf);
    lemma_nibble_char_inj(nibble_of(c1, i), nibble_of(c2, i));
}

/// Distinct counter values have distinct hexadecimal renderings.
pub proof fn lemma_hex_tag_injective(c1: u64, c2: u64)
    requires
        c1 != c2,
    ensures
        hex_tag(c1) != hex_tag(c2),
{
    if hex_tag(c1) == hex_tag(c2) {
        assert forall|i: int| 0 <= i < 16 implies #[trigger] nibble_of(c1, i) == nibble_of(
            c2,
            i,
        ) by {
            lemma_nibble_eq(c1, c2, i);
        }
        assert(nibble_of(c1, 0) == nibble_of(c2, 0) && nibble_of(c1, 1) == nibble_of(c2, 1)
            && nibble_of(c1, 2) == nibble_of(c2, 2) && nibble_of(c1, 3) == nibble_of(c2, 3)
            && nibble_of(c1, 4) == nibble_of(c2, 4) && nibble_of(c1, 5) == nibble_of(c2, 5)
            && nibble_of(c1, 6) == nibble_of(c2, 6) && nibble_of(c1, 7) == nibble_of(c2, 7)
            && nibble_of(c1, 8) == nibble_of(c2, 8) && nibble_of(c1, 9) == nibble_of(c2, 9)
            && nibble_of(c1, 10) == nibble_of(c2, 10) && nibble_of(c1, 11) == nibble_of(c2, 11)
            && nibble_of(c1, 12) == nibble_of(c2, 12) && nibble_of(c1, 13) == nibble_of(c2, 13)
            && nibble_of(c1, 14) == nibble_of(c2, 14) && nibble_of(c1, 15) == nibble_of(c2, 15));
        assert(c1 == c2) by (bit_vector)
            requires
                (c1 >> 60u64) & 0xf == (c2 >> 60u64) & 0xf,
                (c1 >> 56u64) & 0xf == (c2 >> 56u64) & 0xf,
                (c1 >> 52u64) & 0xf == (c2 >> 52u64) & 0xf,
                (c1 >> 48u64) & 0xf == (c2 >> 48u64) & 0xf,
                (c1 >> 44u64) & 0xf == (c2 >> 44u64) & 0xf,
                (c1 >> 40u64) & 0xf == (c2 >> 40u64) & 0xf,
                (c1 >> 36u64) & 0xf == (c2 >> 36u64) & 0xf,
                (c1 >> 32u64) & 0xf == (c2 >> 32u64) & 0xf,
                (c1 >> 28u64) & 0xf == (c2 >> 28u64) & 0xf,
                (c1 >> 24u64) & 0xf == (c2 >> 24u64) & 0xf,
                (c1 >> 20u64) & 0xf == (c2 >> 20u64) & 0xf,
                (c1 >> 16u64) & 0xf == (c2 >> 16u64) & 0xf,
                (c1 >> 12u64) & 0xf == (c2 >> 12u64) & 0xf,
                (c1 >> 8u64) & 0xf == (c2 >> 8u64) & 0xf,
                (c1 >> 4u64) & 0xf == (c2 >> 4u64) & 0xf,
                (c1 >> 0u64) & 0xf == (c2 >> 0u64) & 0xf,
        ;
        assert(false);
    }
}

fn nibble_str(n: u64) -> (r: &'static str)
    requires
        n < 16,
    ensures
        r@.len() == 1 && r@[0] == nibble_char(n),
{
    match n {
        0 => {
            proof {
                reveal_strlit("0");
            }
            "0"
        },
        1 => {
            proof {
                reveal_strlit("1");
            }
            "1"
        },
        2 => {
            proof {
                reveal_strlit("2");
            }
            "2"
        },
        3 => {
            proof {
                reveal_strlit("3");
            }
            "3"
        },
        4 => {
            proof {
                reveal_strlit("4");
            }
            "4"
        },
        5 => {
            proof {
                reveal_strlit("5");
            }
            "5"
        },
        6 => {
            proof {
                reveal_strlit("6");
            }
            "6"
        },
        7 => {
            proof {
                reveal_strlit("7");
            }
            "7"
        },
        8 => {
            proof {
                reveal_strlit("8");
            }
            "8"
        },
        9 => {
            proof {
                reveal_strlit("9");
            }
            "9"
        },
        10 => {
            proof {
                reveal_strlit("a");
            }
            "a"
        },
        11 => {
            proof {
                reveal_strlit("b");
            }
            "b"
        },
        12 => {
            proof {
                reveal_strlit("c");
            }
            "c"
        },
        13 => {
            proof {
                reveal_strlit("d");
            }
            "d"
        },
        14 => {
            proof {
                reveal_strlit("e");
            }
            "e"
        },
        _ => {
            proof {
                reveal_strlit("f");
            }
            "f"
        },
    }
}

/// The sixteen-digit hexadecimal string for `c`.
pub fn hex_string(c: u64) -> (r: String)
    ensures
        r@ == hex_tag(c),
{
    let mut s = String::new();
    let mut i: usize = 0;
    while i < 16
        invariant
            i <= 16,
            s@ == hex_tag(c).subrange(0, i as int),
        decreases 16 - i,
    {
        let sh: u64 = ((15 - i) as u64) * 4;
        let nib: u64 = (c >> sh) & 0xf;
        proof {
            assert((c >> sh) & 0xf < 16) by (bit_vector);
            assert(nib == nibble_of(c, i as int));
        }
        s.append(nibble_str(nib));
        proof {
            assert(s@ =~= hex_tag(c).subrange(0, i as int + 1));
        }
        i = i + 1;
    }
    proof {
        assert(hex_tag(c).subrange(0, 16) =~= hex_tag(c));
    }
    s
}

/// The provided tag generator: the counter value rendered as sixteen
/// hexadecimal digits.  Distinct counter values give distinct tags by
/// construction, whatever the grants.
#[derive(Clone, Copy, PartialEq, Eq, Structural, Debug)]
pub struct HexTagger;

impl TagGenerator for HexTagger {
    open spec fn tag_spec(&self, counter: u64, grant: GrantView) -> Seq<char> {
        hex_tag(counter)
    }

    proof fn lemma_tag_wf(&self, counter: u64, grant: GrantView) {
        reveal_strlit("usage");
        assert(usage_key().len() == 5);
        assert(hex_tag(counter).len() == 16);
    }

    proof fn lemma_tag_injective(&self, c1: u64, g1: GrantView, c2: u64, g2: GrantView) {
        lemma_hex_tag_injective(c1, c2);
    }

    fn tag(&self, counter: u64, grant: &Grant) -> (r: Result<String, ()>)
        ensures
            r matches Ok(s) && s@ == hex_tag(counter),
    {
        Ok(hex_string(counter))
    }
}

/// Draws `n` tags from the usage counter of `store` and advances it by `n`:
/// the returned values are the consecutive counter values starting at the
/// stored one, and no later draw from the store can see them again.
///
/// The counter must already exist under the reserved key; a store never
/// initialized for tagging fails with `NotFound`, a corrupted counter with
/// `SerializationError`, and either failure leaves the store unchanged.
pub fn next_tags(store: &mut TypedRecordStore, n: usize) -> (r: Result<Vec<u64>, AuthError>)
    requires
        old(store).wf(),
    ensures
        final(store).wf(),
        match r {
            Ok(tags) => counter_read(old(store)@) matches Some(c) && tags@.len() == n && (forall|
                j: int,
            |
                0 <= j < n ==> tags@[j] == wadd(c, j as u64)) && final(store)@ == old(
                store,
            )@.insert(usage_key(), ValueView::Bytes(be_bytes(wadd(c, n as u64)))),
            Err(e) => final(store)@ == old(store)@ && counter_read(old(store)@) is None && ((e
                == AuthError::NotFound && !old(store)@.contains_key(usage_key())) || (e
                == AuthError::SerializationError && old(store)@.contains_key(usage_key()))),
        },
{
    let c = match store.get_u64("usage") {
        Ok(c) => c,
        Err(e) => {
            return Err(e);
        },
    };
    proof {
        crate::typed::lemma_be_round_trip(c);
    }
    let mut tags: Vec<u64> = Vec::new();
    let mut i: usize = 0;
    while i < n
        invariant
            i <= n,
            tags@.len() == i,
            forall|j: int| 0 <= j < i ==> tags@[j] == wadd(c, j as u64),
        decreases n - i,
    {
        tags.push(wrapping_add_u64(c, i as u64));
        i = i + 1;
    }
    store.set_u64("usage", wrapping_add_u64(c, n as u64));
    proof {
        crate::typed::lemma_counter_read_insert(old(store)@, wadd(c, n as u64));
    }
    Ok(tags)
}

} // verus!
