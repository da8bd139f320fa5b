//! Text keys: the byte-wise order in which names are kept, and text equality.
//!
//! Names are compared by their UTF-8 bytes, lexicographically, which is the
//! order in which an ordered map of `String` keys lists them.
use vstd::prelude::*;
use vstd::string::*;
use vstd::utf8::*;
use vstd::std_specs::iter::IteratorSpec;

verus! {

/// Strict lexicographic order on byte strings: `a` sorts before `b`.
pub open spec fn lex_lt(a: Seq<u8>, b: Seq<u8>) -> bool
    decreases a.len(),
{
    if b.len() == 0 {
        false
    } else if a.len() == 0 {
        true
    } else if a[0] != b[0] {
        a[0] < b[0]
    } else {
        lex_lt(a.drop_first(), b.drop_first())
    }
}

/// The bytes by which a name is ordered: its UTF-8 encoding.
pub open spec fn key_bytes(s: Seq<char>) -> Seq<u8> {
    encode_utf8(s)
}

/// Strict order on names.
pub open spec fn name_lt(a: Seq<char>, b: Seq<char>) -> bool {
    lex_lt(key_bytes(a), key_bytes(b))
}

/// No byte string sorts before itself.
pub proof fn lemma_lex_irreflexive(a: Seq<u8>)
    ensures
        !lex_lt(a, a),
    decreases a.len(),
{
    if a.len() > 0 {
        lemma_lex_irreflexive(a.drop_first());
    }
}

/// The order is asymmetric.
pub proof fn lemma_lex_asymmetric(a: Seq<u8>, b: Seq<u8>)
    requires
        lex_lt(a, b),
    ensures
        !lex_lt(b, a),
    decreases a.len(),
{
    if a.len() > 0 && b.len() > 0 && a[0] == b[0] {
        lemma_lex_asymmetric(a.drop_first(), b.drop_first());
    }
}

/// The order is transitive.
pub proof fn lemma_lex_transitive(a: Seq<u8>, b: Seq<u8>, c: Seq<u8>)
    requires
        lex_lt(a, b),
        lex_lt(b, c),
    ensures
        lex_lt(a, c),
    decreases a.len(),
{
    if a.len() > 0 && b.len() > 0 && c.len() > 0 && a[0] == b[0] && b[0] == c[0] {
        lemma_lex_transitive(a.drop_first(), b.drop_first(), c.drop_first());
    }
}

/// Two different byte strings are ordered one way or the other.
pub proof fn lemma_lex_total(a: Seq<u8>, b: Seq<u8>)
    requires
        a != b,
    ensures
        lex_lt(a, b) || lex_lt(b, a),
    decreases a.len(),
{
    if a.len() == 0 && b.len() == 0 {
        assert(a =~= b);
    }
    if a.len() > 0 && b.len() > 0 && a[0] == b[0] {
        if a.drop_first() == b.drop_first() {
            assert(a =~= seq![a[0]] + a.drop_first());
            assert(b =~= seq![b[0]] + b.drop_first());
        }
        lemma_lex_total(a.drop_first(), b.drop_first());
    }
}

/// Names with the same bytes are the same name.
pub proof fn lemma_key_bytes_injective(a: Seq<char>, b: Seq<char>)
    requires
        key_bytes(a) == key_bytes(b),
    ensures
        a == b,
{
    encode_utf8_decode_utf8(a);
    encode_utf8_decode_utf8(b);
}

/// Two different names are ordered one way or the other, and never both.
pub proof fn lemma_name_order(a: Seq<char>, b: Seq<char>)
    ensures
        a == b ==> !name_lt(a, b),
        a != b ==> (name_lt(a, b) || name_lt(b, a)),
        name_lt(a, b) ==> !name_lt(b, a),
{
    lemma_lex_irreflexive(key_bytes(a));
    if a != b {
        if key_bytes(a) == key_bytes(b) {
            lemma_key_bytes_injective(a, b);
        }
        lemma_lex_total(key_bytes(a), key_bytes(b));
    }
    if name_lt(a, b) {
        lemma_lex_asymmetric(key_bytes(a), key_bytes(b));
    }
}

/// The name order is transitive.
pub proof fn lemma_name_transitive(a: Seq<char>, b: Seq<char>, c: Seq<char>)
    requires
        name_lt(a, b),
        name_lt(b, c),
    ensures
        name_lt(a, c),
{
    lemma_lex_transitive(key_bytes(a), key_bytes(b), key_bytes(c));
}

/// Where two names stand relative to each other.
#[derive(Clone, Copy, Debug, PartialEq, Eq)]
pub enum Placement {
    Before,
    Same,
    After,
}

proof fn lemma_skip_step(a: Seq<u8>, b: Seq<u8>, i: int)
    requires
        0 <= i < a.len(),
        i < b.len(),
        a[i] == b[i],
    ensures
        lex_lt(a.skip(i), b.skip(i)) == lex_lt(a.skip(i + 1), b.skip(i + 1)),
        (a.skip(i) == b.skip(i)) == (a.skip(i + 1) == b.skip(i + 1)),
{
    assert(a.skip(i).drop_first() =~= a.skip(i + 1));
    assert(b.skip(i).drop_first() =~= b.skip(i + 1));
    assert(a.skip(i) =~= seq![a[i]] + a.skip(i + 1));
    assert(b.skip(i) =~= seq![b[i]] + b.skip(i + 1));
}

/// Compares two byte strings lexicographically.
pub fn place_bytes(a: &[u8], b: &[u8]) -> (r: Placement)
    ensures
        r == Placement::Before <==> lex_lt(a@, b@),
        r == Placement::Same <==> a@ == b@,
        r == Placement::After <==> lex_lt(b@, a@),
{
    let mut i: usize = 0;
    assert(a@.skip(0) =~= a@);
    assert(b@.skip(0) =~= b@);
    while i < a.len() && i < b.len() && a[i] == b[i]
        invariant
            i <= a@.len(),
            i <= b@.len(),
            lex_lt(a@, b@) == lex_lt(a@.skip(i as int), b@.skip(i as int)),
            lex_lt(b@, a@) == lex_lt(b@.skip(i as int), a@.skip(i as int)),
            (a@ == b@) == (a@.skip(i as int) == b@.skip(i as int)),
        decreases a.len() - i,
    {
        proof {
            lemma_skip_step(a@, b@, i as int);
            lemma_skip_step(b@, a@, i as int);
        }
        i = i + 1;
    }
    let ghost sa = a@.skip(i as int);
    let ghost sb = b@.skip(i as int);
    if i < a.len() && i < b.len() {
        assert(sa[0] == a@[i as int]);
        assert(sb[0] == b@[i as int]);
        if a[i] < b[i] {
            Placement::Before
        } else {
            Placement::After
        }
    } else if i < b.len() {
        assert(sa.len() == 0);
        Placement::Before
    } else if i < a.len() {
        assert(sb.len() == 0);
        Placement::After
    } else {
        assert(sa =~= sb);
        Placement::Same
    }
}

/// Compares two names by their UTF-8 bytes.
pub fn place_names(a: &str, b: &str) -> (r: Placement)
    ensures
        r == Placement::Before <==> name_lt(a@, b@),
        r == Placement::Same <==> a@ == b@,
        r == Placement::After <==> name_lt(b@, a@),
{
    let r = place_bytes(a.as_bytes(), b.as_bytes());
    proof {
        if key_bytes(a@) == key_bytes(b@) {
            lemma_key_bytes_injective(a@, b@);
        }
    }
    r
}

/// Whether two texts are the same.
pub fn same_text(a: &str, b: &str) -> (r: bool)
    ensures
        r == (a@ == b@),
{
    match place_names(a, b) {
        Placement::Same => true,
        _ => false,
    }
}

/// Whether a text holds the given character.
pub fn has_char(s: &str, c: char) -> (r: bool)
    ensures
        r == s@.contains(c),
{
    let mut found = false;
    let mut chars = s.chars();
    let ghost mut seen: Seq<char> = Seq::empty();
    loop
        invariant
            chars.obeys_prophetic_iter_laws(),
            s@ == seen + chars.remaining(),
            found == seen.contains(c),
            chars.decrease() is Some,
        ensures
            found == s@.contains(c),
        decreases chars.decrease()->0,
    {
        let ghost before = chars.remaining();
        match chars.next() {
            Some(x) => {
                proof {
                    assert(seen.push(x) + before.drop_first() =~= seen + before);
                    assert(seen.push(x).contains(c) == (seen.contains(c) || x == c)) by {
                        if x == c {
                            assert(seen.push(x)[seen.len() as int] == c);
                        }
                        if seen.contains(c) {
                            let k = choose|k: int| 0 <= k < seen.len() && seen[k] == c;
                            assert(seen.push(x)[k] == c);
                        }
                        if seen.push(x).contains(c) && x != c {
                            let k = choose|k: int| 0 <= k < seen.push(x).len() && seen.push(x)[k] == c;
                            assert(seen[k] == c);
                        }
                    }
                    seen = seen.push(x);
                }
                if x == c {
                    found = true;
                }
            },
            None => {
                assert(seen =~= s@);
                break ;
            },
        }
    }
    found
}

/// The characters of a text, in order.
pub fn chars_of(s: &str) -> (v: Vec<char>)
    ensures
        v@ == s@,
{
    let mut v: Vec<char> = Vec::new();
    let mut chars = s.chars();
    loop
        invariant
            chars.obeys_prophetic_iter_laws(),
            s@ == v@ + chars.remaining(),
            chars.decrease() is Some,
        ensures
            v@ == s@,
        decreases chars.decrease()->0,
    {
        let ghost before = chars.remaining();
        match chars.next() {
            Some(x) => {
                proof {
                    assert(v@.push(x) + before.drop_first() =~= v@ + before);
                }
                v.push(x);
            },
            None => {
                assert(v@ =~= s@);
                break ;
            },
        }
    }
    v
}

} // verus!
