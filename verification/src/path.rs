use vstd::prelude::*;

use crate::text::{spec_utf8, string_from_utf8};

verus! {

/// `out` after the component `cur` ends: an empty component is dropped, as is a `.` that
/// doesn't open the path; components are joined by `/`, after the root if there is one.
pub open spec fn spec_emit_component(out: Seq<u8>, cur: Seq<u8>) -> Seq<u8> {
    if cur.len() == 0 {
        out
    } else if cur == seq![0x2eu8] && out.len() > 0 {
        out
    } else if out.len() == 0 {
        cur
    } else if out == seq![0x2fu8] {
        out + cur
    } else {
        out + seq![0x2fu8] + cur
    }
}

/// Components emitted so far, and the component being read, after the bytes `b` of a path.
pub open spec fn spec_path_state(b: Seq<u8>) -> (Seq<u8>, Seq<u8>)
    decreases b.len(),
{
    if b.len() == 0 {
        (Seq::empty(), Seq::empty())
    } else {
        let (out, cur) = spec_path_state(b.drop_last());
        if b.last() == 0x2f {
            if b.len() == 1 {
                (seq![0x2fu8], Seq::empty())
            } else {
                (spec_emit_component(out, cur), Seq::empty())
            }
        } else {
            (out, cur.push(b.last()))
        }
    }
}

/// Bytes of the path `b` written by its components: the root if the path starts with `/`,
/// then the components joined by single `/`, without empty components, without `.`
/// components but a leading one, and without a trailing `/`. Two paths are the same path
/// exactly when these bytes are the same.
pub open spec fn spec_path_bytes(b: Seq<u8>) -> Seq<u8> {
    spec_emit_component(spec_path_state(b).0, spec_path_state(b).1)
}

/// The path `p` written by its components, the form by which paths are compared.
pub open spec fn spec_path_key(p: Seq<char>) -> Seq<char> {
    let nb = spec_path_bytes(spec_utf8(p));
    if vstd::utf8::valid_utf8(nb) {
        vstd::utf8::decode_utf8(nb)
    } else {
        p
    }
}

/// Append `cur` as a component to `out`, as [`spec_emit_component`] describes.
fn emit_component(out: &mut Vec<u8>, cur: &Vec<u8>)
    ensures
        final(out)@ == spec_emit_component(old(out)@, cur@),
{
    let n = cur.len();
    if n == 0 {
        return;
    }
    if n == 1 && cur[0] == 0x2e && out.len() > 0 {
        proof {
            assert(cur@ =~= seq![0x2eu8]);
        }
        return;
    }
    proof {
        if cur@ == seq![0x2eu8] {
            assert(cur@[0] == 0x2e);
        }
    }
    let root = out.len() == 1 && out[0] == 0x2f;
    proof {
        if out@ == seq![0x2fu8] {
            assert(out@[0] == 0x2f);
        }
        if root {
            assert(out@ =~= seq![0x2fu8]);
        }
    }
    let ghost before = out@;
    if out.len() > 0 && !root {
        out.push(0x2f);
    }
    let ghost mid = out@;
    let mut i: usize = 0;
    while i < n
        invariant
            n == cur@.len(),
            i <= n,
            out@ == mid + cur@.take(i as int),
        decreases n - i,
    {
        out.push(cur[i]);
        proof {
            assert(cur@.take(i + 1) =~= cur@.take(i as int).push(cur@[i as int]));
        }
        i = i + 1;
    }
    proof {
        assert(cur@.take(n as int) =~= cur@);
        if before.len() > 0 && !root {
            assert(mid =~= before + seq![0x2fu8]);
        } else {
            assert(mid =~= before);
        }
    }
}

/// The path `p` written by its components; see [`spec_path_key`].
pub fn path_key(p: &str) -> (k: String)
    ensures
        k@ == spec_path_key(p@),
{
    let b = p.as_bytes();
    proof {
        assert(b@ == spec_utf8(p@));
    }
    let n = b.len();
    let mut out: Vec<u8> = Vec::new();
    let mut cur: Vec<u8> = Vec::new();
    let mut i: usize = 0;
    assert(b@.take(0) =~= Seq::<u8>::empty());
    while i < n
        invariant
            n == b@.len(),
            i <= n,
            spec_path_state(b@.take(i as int)) == (out@, cur@),
        decreases n - i,
    {
        let ghost t = b@.take(i + 1);
        proof {
            assert(t.drop_last() =~= b@.take(i as int));
            assert(t.last() == b@[i as int]);
        }
        if b[i] == 0x2f {
            if i == 0 {
                out = Vec::new();
                out.push(0x2f);
                assert(out@ =~= seq![0x2fu8]);
            } else {
                emit_component(&mut out, &cur);
            }
            cur = Vec::new();
            assert(cur@ =~= Seq::<u8>::empty());
        } else {
            cur.push(b[i]);
        }
        i = i + 1;
    }
    assert(b@.take(n as int) =~= b@);
    emit_component(&mut out, &cur);
    match string_from_utf8(out) {
        Some(s) => s,
        None => p.to_owned(),
    }
}

/// The bytes `b` already write a path by its components: they aren't empty and don't end
/// with `/`, no `/` follows another, and no component is exactly `.`.
pub open spec fn spec_plain_path(b: Seq<u8>) -> bool {
    &&& b.len() > 0
    &&& b.last() != 0x2f
    &&& forall|i: int| 0 <= i < b.len() - 1 ==> !(#[trigger] b[i] == 0x2f && b[i + 1] == 0x2f)
    &&& forall|i: int|
        0 <= i < b.len() && #[trigger] b[i] == 0x2e && (i == 0 || b[i - 1] == 0x2f) ==> i + 1 < b.len() && b[i + 1]
            != 0x2f
}

/// Index of the last `/` of `t`; `-1` when there is none.
spec fn spec_last_slash(t: Seq<u8>) -> int
    decreases t.len(),
{
    if t.len() == 0 {
        -1
    } else if t.last() == 0x2f {
        t.len() - 1
    } else {
        spec_last_slash(t.drop_last())
    }
}

/// What stands before the last component of `t`, whose last `/` is at `j`: nothing, the root,
/// or the bytes before that `/`.
spec fn spec_front(t: Seq<u8>, j: int) -> Seq<u8> {
    if j < 0 {
        Seq::empty()
    } else if j == 0 {
        seq![0x2fu8]
    } else {
        t.subrange(0, j)
    }
}

/// The last `/` of `t` is a `/` of `t`, and none follows it.
proof fn lemma_last_slash(t: Seq<u8>)
    ensures
        -1 <= spec_last_slash(t) < t.len(),
        spec_last_slash(t) >= 0 ==> t[spec_last_slash(t)] == 0x2f,
        forall|k: int| spec_last_slash(t) < k < t.len() ==> t[k] != 0x2f,
    decreases t.len(),
{
    if t.len() > 0 && t.last() != 0x2f {
        let u = t.drop_last();
        lemma_last_slash(u);
        assert forall|k: int| spec_last_slash(t) < k < t.len() implies t[k] != 0x2f by {
            if k < u.len() {
                assert(u[k] == t[k]);
            }
        }
    }
}

/// Ending the last component of the first `i` bytes of a plain path, where a `/` or the end
/// follows them, writes those bytes back.
proof fn lemma_emit_prefix(b: Seq<u8>, i: int)
    requires
        spec_plain_path(b),
        0 < i <= b.len(),
        i == b.len() || b[i] == 0x2f,
    ensures
        spec_emit_component(
            spec_front(b.take(i), spec_last_slash(b.take(i))),
            b.take(i).subrange(spec_last_slash(b.take(i)) + 1, i),
        ) == b.take(i),
{
    let t = b.take(i);
    lemma_last_slash(t);
    let j = spec_last_slash(t);
    let out = spec_front(t, j);
    let cur = t.subrange(j + 1, i);
    assert(b[i - 1] != 0x2f) by {
        if i < b.len() {
            assert(!(b[i - 1] == 0x2f && b[i] == 0x2f));
        }
    }
    assert(t[i - 1] == b[i - 1]);
    assert(j < i - 1);
    assert(cur.len() > 0);
    if cur == seq![0x2eu8] {
        assert(j == i - 2);
        assert(cur[0] == b[i - 1]);
        assert(b[i - 1] == 0x2e);
        if j >= 0 {
            assert(t[j] == b[j]);
        }
        assert(i - 1 == 0 || b[i - 2] == 0x2f);
    }
    if j < 0 {
        assert(cur =~= t);
    } else if j == 0 {
        assert(t[0] == 0x2f);
        assert(out + cur =~= t);
    } else {
        assert(out.len() == j);
        if j == 1 {
            assert(t[0] == b[0] && t[1] == b[1]);
            assert(!(b[0] == 0x2f && b[1] == 0x2f));
            assert(out[0] == b[0]);
            assert(out != seq![0x2fu8]);
        } else {
            assert(out.len() != 1);
        }
        assert(out + seq![0x2fu8] + cur =~= t);
    }
}

/// Reading the first `i` bytes of a plain path leaves the components before its last `/`
/// emitted, and the bytes after it as the component being read.
proof fn lemma_plain_state(b: Seq<u8>, i: int)
    requires
        spec_plain_path(b),
        0 <= i <= b.len(),
    ensures
        spec_path_state(b.take(i)) == (
            spec_front(b.take(i), spec_last_slash(b.take(i))),
            b.take(i).subrange(spec_last_slash(b.take(i)) + 1, i),
        ),
    decreases i,
{
    let t = b.take(i);
    if i == 0 {
        assert(t.subrange(0, 0) =~= Seq::<u8>::empty());
    } else {
        lemma_plain_state(b, i - 1);
        let u = b.take(i - 1);
        assert(t.drop_last() =~= u);
        assert(t.last() == b[i - 1]);
        lemma_last_slash(u);
        let j = spec_last_slash(u);
        if b[i - 1] == 0x2f {
            assert(spec_last_slash(t) == i - 1);
            assert(t.subrange(i, i) =~= Seq::<u8>::empty());
            if i > 1 {
                lemma_emit_prefix(b, i - 1);
                assert(t.subrange(0, i - 1) =~= u);
            }
        } else {
            assert(spec_last_slash(t) == j);
            assert(u.subrange(j + 1, i - 1).push(b[i - 1]) =~= t.subrange(j + 1, i));
            if j > 0 {
                assert(u.subrange(0, j) =~= t.subrange(0, j));
            }
        }
    }
}

/// A path already written by its components is its own form: every component is kept as it
/// is, one that only begins with `.` too.
pub proof fn lemma_plain_path_bytes(b: Seq<u8>)
    requires
        spec_plain_path(b),
    ensures
        spec_path_bytes(b) == b,
{
    let n = b.len() as int;
    lemma_plain_state(b, n);
    lemma_emit_prefix(b, n);
    assert(b.take(n) =~= b);
}

/// A path whose bytes already write it by its components is its own key.
pub proof fn lemma_plain_path_key(p: Seq<char>)
    requires
        spec_plain_path(spec_utf8(p)),
    ensures
        spec_path_key(p) == p,
{
    lemma_plain_path_bytes(spec_utf8(p));
    vstd::utf8::encode_utf8_valid_utf8(p);
    vstd::utf8::encode_utf8_decode_utf8(p);
}

/// Reading one more byte `x` of a path that isn't at its front, from the state `st`.
pub open spec fn spec_path_step(st: (Seq<u8>, Seq<u8>), x: u8) -> (Seq<u8>, Seq<u8>) {
    if x == 0x2f {
        (spec_emit_component(st.0, st.1), Seq::empty())
    } else {
        (st.0, st.1.push(x))
    }
}

/// Reading the bytes `c`, none of them at the front of the path, from the state `st`.
pub open spec fn spec_path_feed(st: (Seq<u8>, Seq<u8>), c: Seq<u8>) -> (Seq<u8>, Seq<u8>)
    decreases c.len(),
{
    if c.len() == 0 {
        st
    } else {
        spec_path_step(spec_path_feed(st, c.drop_last()), c.last())
    }
}

/// Reading a path after a non-empty front goes on from the state the front leaves.
proof fn lemma_path_feed(a: Seq<u8>, c: Seq<u8>)
    requires
        a.len() > 0,
    ensures
        spec_path_state(a + c) == spec_path_feed(spec_path_state(a), c),
    decreases c.len(),
{
    if c.len() == 0 {
        assert(a + c =~= a);
    } else {
        lemma_path_feed(a, c.drop_last());
        assert((a + c).drop_last() =~= a + c.drop_last());
        assert((a + c).last() == c.last());
    }
}

/// After a non-empty path something was emitted or is being read.
proof fn lemma_path_state_nonempty(b: Seq<u8>)
    requires
        b.len() > 0,
    ensures
        spec_path_state(b).0.len() > 0 || spec_path_state(b).1.len() > 0,
    decreases b.len(),
{
    if b.len() > 1 {
        lemma_path_state_nonempty(b.drop_last());
    }
}

/// After a path that ends with `/`, no component is being read, and something was emitted.
proof fn lemma_path_state_after_separator(a: Seq<u8>)
    ensures
        spec_path_state(a + seq![0x2fu8]).1.len() == 0,
        spec_path_state(a + seq![0x2fu8]).0.len() > 0,
{
    let l = a + seq![0x2fu8];
    assert(l.drop_last() =~= a);
    assert(l.last() == 0x2f);
    if a.len() > 0 {
        lemma_path_state_nonempty(a);
    }
}

/// A trailing `/` doesn't change a non-empty path.
pub proof fn lemma_trailing_separator(b: Seq<u8>)
    requires
        b.len() > 0,
    ensures
        spec_path_bytes(b + seq![0x2fu8]) == spec_path_bytes(b),
{
    let l = b + seq![0x2fu8];
    assert(l.drop_last() =~= b);
    assert(l.last() == 0x2f);
}

/// A repeated `/` doesn't change a path.
pub proof fn lemma_repeated_separator(a: Seq<u8>, c: Seq<u8>)
    ensures
        spec_path_bytes(a + seq![0x2fu8, 0x2fu8] + c) == spec_path_bytes(a + seq![0x2fu8] + c),
{
    let l = a + seq![0x2fu8];
    lemma_path_state_after_separator(a);
    let l2 = l + seq![0x2fu8];
    assert(l2.drop_last() =~= l);
    assert(l2.last() == 0x2f);
    assert(spec_path_state(l2) == spec_path_state(l));
    lemma_path_feed(l2, c);
    lemma_path_feed(l, c);
    assert(a + seq![0x2fu8, 0x2fu8] + c =~= l2 + c);
    assert(a + seq![0x2fu8] + c =~= l + c);
}

/// A `.` component after a `/` doesn't change a path.
pub proof fn lemma_dot_component(a: Seq<u8>, c: Seq<u8>)
    ensures
        spec_path_bytes(a + seq![0x2fu8, 0x2eu8, 0x2fu8] + c) == spec_path_bytes(a + seq![0x2fu8] + c),
{
    let l = a + seq![0x2fu8];
    lemma_path_state_after_separator(a);
    let st = spec_path_state(l);
    lemma_path_feed(l, seq![0x2eu8, 0x2fu8]);
    assert(seq![0x2eu8, 0x2fu8].drop_last() =~= seq![0x2eu8]);
    assert(seq![0x2eu8].drop_last() =~= Seq::<u8>::empty());
    assert(st.1.push(0x2eu8) =~= seq![0x2eu8]);
    let dot = seq![0x2eu8, 0x2fu8];
    assert(spec_path_feed(st, dot.drop_last().drop_last()) == st);
    assert(spec_path_feed(st, dot.drop_last()) == (st.0, seq![0x2eu8]));
    assert(spec_emit_component(st.0, seq![0x2eu8]) == st.0);
    assert(st.1 =~= Seq::<u8>::empty());
    assert(spec_path_feed(st, dot) == st);
    let l2 = l + seq![0x2eu8, 0x2fu8];
    assert(spec_path_state(l2) == st);
    lemma_path_feed(l2, c);
    lemma_path_feed(l, c);
    assert(a + seq![0x2fu8, 0x2eu8, 0x2fu8] + c =~= l2 + c);
    assert(a + seq![0x2fu8] + c =~= l + c);
}

} // verus!
