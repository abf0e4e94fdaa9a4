//! The pieces of a JSON Pointer (RFC 6901): its reference tokens and array
//! indices.
use vstd::prelude::*;

verus! {

/// The `/`-separated pieces of `s`, the first of them prefixed by `cur`.
pub open spec fn split_acc(s: Seq<u8>, cur: Seq<u8>) -> Seq<Seq<u8>>
    decreases s.len(),
{
    if s.len() == 0 {
        seq![cur]
    } else if s[0] == 0x2f {
        seq![cur] + split_acc(s.drop_first(), Seq::empty())
    } else {
        split_acc(s.drop_first(), cur.push(s[0]))
    }
}

/// The `/`-separated pieces of `s`; there is one more than there are `/`.
pub open spec fn split_slash(s: Seq<u8>) -> Seq<Seq<u8>> {
    split_acc(s, Seq::empty())
}

/// A reference token with its escapes undone, left to right: `~1` is `/`,
/// `~0` is `~`.
pub open spec fn unescape(s: Seq<u8>) -> Seq<u8>
    decreases s.len(),
{
    if s.len() == 0 {
        Seq::empty()
    } else if s.len() >= 2 && s[0] == 0x7e && s[1] == 0x31 {
        seq![0x2fu8] + unescape(s.skip(2))
    } else if s.len() >= 2 && s[0] == 0x7e && s[1] == 0x30 {
        seq![0x7eu8] + unescape(s.skip(2))
    } else {
        seq![s[0]] + unescape(s.skip(1))
    }
}

/// The reference tokens of a pointer that starts with `/`: the pieces after
/// the leading `/`, each unescaped.
pub open spec fn pointer_tokens(path: Seq<u8>) -> Seq<Seq<u8>> {
    split_slash(path.drop_first()).map_values(|t: Seq<u8>| unescape(t))
}

/// An ASCII decimal digit.
pub open spec fn is_digit(b: u8) -> bool {
    0x30 <= b <= 0x39
}

/// The number that the decimal digits `s` write.
pub open spec fn digits_value(s: Seq<u8>) -> nat
    decreases s.len(),
{
    if s.len() == 0 {
        0
    } else {
        digits_value(s.drop_last()) * 10 + (s.last() - 0x30) as nat
    }
}

/// A reference token without its leading `+`, if any.
pub open spec fn index_digits(tok: Seq<u8>) -> Seq<u8> {
    if tok.len() > 0 && tok[0] == 0x2b {
        tok.drop_first()
    } else {
        tok
    }
}

/// The array index that a reference token writes: an optional `+` and one or
/// more decimal digits, of a value that fits a `usize`.
pub open spec fn index_value(tok: Seq<u8>) -> Option<nat> {
    let d = index_digits(tok);
    if d.len() > 0 && (forall|i: int| 0 <= i < d.len() ==> is_digit(#[trigger] d[i]))
        && digits_value(d) <= usize::MAX {
        Some(digits_value(d))
    } else {
        None
    }
}

proof fn lemma_digits_prefix(s: Seq<u8>, k: int)
    requires
        0 <= k <= s.len(),
        forall|i: int| 0 <= i < s.len() ==> is_digit(#[trigger] s[i]),
    ensures
        digits_value(s.subrange(0, k)) <= digits_value(s),
    decreases s.len(),
{
    if k < s.len() {
        let d = s.drop_last();
        assert(s.subrange(0, k) =~= d.subrange(0, k));
        lemma_digits_prefix(d, k);
        let x = digits_value(d);
        assert(x <= x * 10) by (nonlinear_arith);
    } else {
        assert(s.subrange(0, k) =~= s);
    }
}

proof fn lemma_index_overflow(tok: Seq<u8>, first: int, i: int)
    requires
        0 <= first <= i < tok.len(),
        index_digits(tok) == tok.subrange(first, tok.len() as int),
        digits_value(tok.subrange(first, i + 1)) > usize::MAX,
    ensures
        index_value(tok) is None,
{
    let d = index_digits(tok);
    if forall|j: int| 0 <= j < d.len() ==> is_digit(#[trigger] d[j]) {
        assert(tok.subrange(first, i + 1) =~= d.subrange(0, i + 1 - first));
        lemma_digits_prefix(d, i + 1 - first);
    }
}

/// The array index that `tok` writes, if any.
pub fn parse_index(tok: &[u8]) -> (r: Option<usize>)
    ensures
        match index_value(tok@) {
            Some(n) => r == Some(n as usize),
            None => r is None,
        },
{
    let len = tok.len();
    let first: usize = if len > 0 && tok[0] == 0x2b {
        1
    } else {
        0
    };
    let ghost d = index_digits(tok@);
    assert(d =~= tok@.subrange(first as int, len as int));
    if first >= len {
        return None;
    }
    let mut i = first;
    let mut acc: usize = 0;
    while i < len
        invariant
            first <= i <= len,
            len == tok@.len(),
            d == index_digits(tok@),
            d == tok@.subrange(first as int, len as int),
            acc == digits_value(tok@.subrange(first as int, i as int)),
            forall|j: int| first <= j < i ==> is_digit(#[trigger] tok@[j]),
        decreases len - i,
    {
        let b = tok[i];
        if !(0x30 <= b && b <= 0x39) {
            assert(0 <= i - first < d.len());
            assert(d[i - first] == tok@[i as int]);
            assert(!is_digit(d[i - first]));
            assert(!(forall|k: int| 0 <= k < d.len() ==> is_digit(#[trigger] d[k])));
            assert(index_value(tok@) is None);
            return None;
        }
        let ghost pre = tok@.subrange(first as int, i as int);
        let ghost next = tok@.subrange(first as int, i + 1);
        assert(next.drop_last() =~= pre);
        assert(next.last() == b);
        assert(digits_value(next) == acc * 10 + (b - 0x30) as nat);
        match acc.checked_mul(10) {
            Some(m) => match m.checked_add((b - 0x30) as usize) {
                Some(a) => {
                    acc = a;
                },
                None => {
                    proof {
                        lemma_index_overflow(tok@, first as int, i as int);
                    }
                    return None;
                },
            },
            None => {
                proof {
                    lemma_index_overflow(tok@, first as int, i as int);
                }
                return None;
            },
        }
        i = i + 1;
    }
    assert(d =~= tok@.subrange(first as int, i as int));
    Some(acc)
}

/// The pieces of `path` after its first byte, split at each `/`.
pub fn split_tail(path: &[u8]) -> (r: Vec<Vec<u8>>)
    requires
        path@.len() > 0,
    ensures
        r@.map_values(|v: Vec<u8>| v@) == split_slash(path@.drop_first()),
{
    let len = path.len();
    let ghost whole = path@.drop_first();
    assert(whole =~= path@.subrange(1, len as int));
    let mut out: Vec<Vec<u8>> = Vec::new();
    let mut cur: Vec<u8> = Vec::new();
    let mut i: usize = 1;
    assert(out@.map_values(|v: Vec<u8>| v@) =~= Seq::<Seq<u8>>::empty());
    while i < len
        invariant
            1 <= i <= len,
            len == path@.len(),
            whole == path@.drop_first(),
            out@.map_values(|v: Vec<u8>| v@) + split_acc(path@.subrange(i as int, len as int), cur@)
                == split_slash(whole),
        decreases len - i,
    {
        let ghost rest = path@.subrange(i as int, len as int);
        let ghost before = out@.map_values(|v: Vec<u8>| v@);
        let ghost old_cur = cur@;
        assert(rest.drop_first() =~= path@.subrange(i + 1, len as int));
        if path[i] == 0x2f {
            out.push(cur);
            cur = Vec::new();
            assert(out@.map_values(|v: Vec<u8>| v@) =~= before.push(old_cur));
            assert(before.push(old_cur) + split_acc(rest.drop_first(), Seq::empty()) =~= before + (
            seq![old_cur] + split_acc(rest.drop_first(), Seq::empty())));
        } else {
            cur.push(path[i]);
        }
        i = i + 1;
    }
    let ghost before = out@.map_values(|v: Vec<u8>| v@);
    let ghost last = cur@;
    assert(path@.subrange(i as int, len as int) =~= Seq::<u8>::empty());
    out.push(cur);
    assert(out@.map_values(|v: Vec<u8>| v@) =~= before + seq![last]);
    out
}

/// `tok` with its escapes undone.
pub fn unescape_token(tok: &[u8]) -> (r: Vec<u8>)
    ensures
        r@ == unescape(tok@),
{
    let len = tok.len();
    let mut out: Vec<u8> = Vec::new();
    let mut i: usize = 0;
    assert(tok@.skip(0) =~= tok@);
    assert(out@ + unescape(tok@) =~= unescape(tok@));
    while i < len
        invariant
            i <= len,
            len == tok@.len(),
            out@ + unescape(tok@.skip(i as int)) == unescape(tok@),
        decreases len - i,
    {
        let ghost rest = tok@.skip(i as int);
        let ghost before = out@;
        if i + 1 < len && tok[i] == 0x7e && tok[i + 1] == 0x31 {
            out.push(0x2f);
            assert(rest.skip(2) =~= tok@.skip(i + 2));
            assert(before.push(0x2fu8) + unescape(rest.skip(2)) =~= before + (seq![0x2fu8] + unescape(rest.skip(2))));
            i = i + 2;
        } else if i + 1 < len && tok[i] == 0x7e && tok[i + 1] == 0x30 {
            out.push(0x7e);
            assert(rest.skip(2) =~= tok@.skip(i + 2));
            assert(before.push(0x7eu8) + unescape(rest.skip(2)) =~= before + (seq![0x7eu8] + unescape(rest.skip(2))));
            i = i + 2;
        } else {
            out.push(tok[i]);
            assert(rest.skip(1) =~= tok@.skip(i + 1));
            assert(before.push(rest[0]) + unescape(rest.skip(1)) =~= before + (seq![rest[0]] + unescape(rest.skip(1))));
            i = i + 1;
        }
    }
    assert(tok@.skip(i as int) =~= Seq::<u8>::empty());
    assert(out@ + Seq::<u8>::empty() =~= out@);
    out
}


/// The reference tokens of `path`, which starts with `/`.
pub fn tokens_of(path: &[u8]) -> (r: Vec<Vec<u8>>)
    requires
        path@.len() > 0,
    ensures
        r@.map_values(|v: Vec<u8>| v@) == pointer_tokens(path@),
{
    let pieces = split_tail(path);
    let ghost raw = split_slash(path@.drop_first());
    assert(pieces@.map_values(|v: Vec<u8>| v@) == raw);
    let mut out: Vec<Vec<u8>> = Vec::new();
    let mut i: usize = 0;
    while i < pieces.len()
        invariant
            i <= pieces@.len(),
            raw.len() == pieces@.len(),
            forall|j: int| 0 <= j < raw.len() ==> raw[j] == #[trigger] pieces@[j]@,
            out@.len() == i,
            forall|j: int| 0 <= j < i ==> #[trigger] out@[j]@ == unescape(raw[j]),
        decreases pieces@.len() - i,
    {
        assert(raw[i as int] == pieces@.map_values(|v: Vec<u8>| v@)[i as int]);
        let tok = unescape_token(pieces[i].as_slice());
        out.push(tok);
        i = i + 1;
    }
    assert(out@.map_values(|v: Vec<u8>| v@) =~= pointer_tokens(path@));
    out
}

} // verus!
