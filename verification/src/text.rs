use vstd::prelude::*;

verus! {

/// UTF-8 bytes of a text.
pub open spec fn spec_utf8(s: Seq<char>) -> Seq<u8> {
    vstd::utf8::encode_utf8(s)
}

/// `needle` occurs in `hay`, compared by their UTF-8 bytes.
pub open spec fn spec_contains(hay: Seq<char>, needle: Seq<char>) -> bool {
    let h = spec_utf8(hay);
    let n = spec_utf8(needle);
    exists|i: int| 0 <= i && i + n.len() <= h.len() && #[trigger] h.subrange(i, i + n.len()) == n
}

/// Check if `needle` occurs in `hay`.
pub fn contains_str(hay: &str, needle: &str) -> (b: bool)
    ensures
        b == spec_contains(hay@, needle@),
{
    let h = hay.as_bytes();
    let n = needle.as_bytes();
    let hl = h.len();
    let nl = n.len();
    if nl > hl {
        proof {
            assert(!spec_contains(hay@, needle@));
        }
        return false;
    }
    let mut i: usize = 0;
    while i <= hl - nl
        invariant
            h@ == spec_utf8(hay@),
            n@ == spec_utf8(needle@),
            hl == h@.len(),
            nl == n@.len(),
            nl <= hl,
            i <= hl - nl + 1,
            forall|k: int| 0 <= k < i ==> #[trigger] h@.subrange(k, k + nl) != n@,
        decreases hl - nl + 1 - i,
    {
        let mut j: usize = 0;
        let mut same = true;
        while j < nl
            invariant
                h@ == spec_utf8(hay@),
                n@ == spec_utf8(needle@),
                hl == h@.len(),
                nl == n@.len(),
                i + nl <= hl,
                j <= nl,
                same == forall|m: int| 0 <= m < j ==> h@[i + m] == n@[m],
            decreases nl - j,
        {
            if h[i + j] != n[j] {
                same = false;
            }
            j = j + 1;
        }
        if same {
            proof {
                assert(h@.subrange(i as int, i + nl) =~= n@);
            }
            return true;
        }
        proof {
            let m = choose|m: int| 0 <= m < nl && h@[i + m] != n@[m];
            assert(h@.subrange(i as int, i + nl)[m] != n@[m]);
        }
        i = i + 1;
    }
    false
}

/// Converts bytes into a `String` with std's `String::from_utf8`. The contract claims what
/// std documents: the conversion fails exactly when the bytes are not valid UTF-8, and the
/// string otherwise holds the characters that the bytes encode.
#[verifier::external_body]
pub(crate) fn string_from_utf8(bytes: Vec<u8>) -> (r: Option<String>)
    ensures
        r is Some <==> vstd::utf8::valid_utf8(bytes@),
        r is Some ==> r.unwrap()@ == vstd::utf8::decode_utf8(bytes@),
{
    String::from_utf8(bytes).ok()
}

/// Check if two texts are the same.
pub fn str_eq(a: &str, b: &str) -> (r: bool)
    ensures
        r == (a@ == b@),
{
    let x = a.as_bytes();
    let y = b.as_bytes();
    proof {
        assert(x@ == spec_utf8(a@));
        assert(y@ == spec_utf8(b@));
    }
    if x.len() != y.len() {
        return false;
    }
    let n = x.len();
    let mut i: usize = 0;
    while i < n
        invariant
            n == x@.len(),
            n == y@.len(),
            i <= n,
            x@ == spec_utf8(a@),
            y@ == spec_utf8(b@),
            forall|k: int| 0 <= k < i ==> x@[k] == y@[k],
        decreases n - i,
    {
        if x[i] != y[i] {
            return false;
        }
        i = i + 1;
    }
    proof {
        assert(x@ =~= y@);
        vstd::utf8::encode_utf8_decode_utf8(a@);
        vstd::utf8::encode_utf8_decode_utf8(b@);
    }
    true
}

} // verus!
