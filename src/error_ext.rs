use vstd::prelude::*;
use vstd::string::StringSliceAdditionalSpecFns;

verus! {

/// serde_json's error, carried through as it is.
#[verifier::external_type_specification]
#[verifier::external_body]
pub struct ExError(serde_json::Error);

/// The line that serde_json recorded in an error.
pub uninterp spec fn error_line(e: serde_json::Error) -> usize;

/// The column that serde_json recorded in an error.
pub uninterp spec fn error_column(e: serde_json::Error) -> usize;

/// Relies on serde_json::Error::line: it returns the one-based line stored in
/// the error (any value is handled).
pub assume_specification[ serde_json::Error::line ](e: &serde_json::Error) -> (r: usize)
    ensures
        r == error_line(*e),
;

/// Relies on serde_json::Error::column: it returns the one-based column
/// stored in the error (any value is handled).
pub assume_specification[ serde_json::Error::column ](e: &serde_json::Error) -> (r: usize)
    ensures
        r == error_column(*e),
;

/// Index of the first `\n` at or after `from`, if any.
pub open spec fn newline_from(s: Seq<u8>, from: int) -> Option<int>
    decreases s.len() - from,
{
    if from < 0 || from >= s.len() {
        None
    } else if s[from] == 0x0a {
        Some(from)
    } else {
        newline_from(s, from + 1)
    }
}

/// Offset at which line `k + 1` (one-based) begins: just past the `k`-th
/// `\n`. `None` where the text has fewer lines.
pub open spec fn line_start(s: Seq<u8>, k: nat) -> Option<int>
    decreases k,
{
    if k == 0 {
        Some(0)
    } else {
        match line_start(s, (k - 1) as nat) {
            Some(p) => match newline_from(s, p) {
                Some(q) => Some(q + 1),
                None => None,
            },
            None => None,
        }
    }
}

/// The zero-based byte offset of one-based `line` and `column` in `s`; `None`
/// where it would reach or pass the end of `s`. Line and column `0` count as
/// `1`.
pub open spec fn offset_spec(s: Seq<u8>, line: nat, column: nat) -> Option<int> {
    let k: nat = if line > 0 {
        (line - 1) as nat
    } else {
        0
    };
    let c: nat = if column > 0 {
        (column - 1) as nat
    } else {
        0
    };
    match line_start(s, k) {
        Some(p) => if p + c < s.len() {
            Some(p + c)
        } else {
            None
        },
        None => None,
    }
}

/// The byte offset in `text` of one-based `line` and `column`, as a streaming
/// parser reports an error position; `None` where it would reach or pass the
/// end of `text`.
pub fn offset_of_line_column(text: &str, line: usize, column: usize) -> (r: Option<usize>)
    ensures
        match offset_spec(text.spec_bytes(), line as nat, column as nat) {
            Some(n) => r == Some(n as usize),
            None => r is None,
        },
        r is Some ==> r->Some_0 < text.spec_bytes().len(),
{
    let s = text.as_bytes();
    let len = s.len();
    let mut start: usize = 0;
    let mut k: usize = 1;
    while k < line
        invariant
            1 <= k,
            line >= 1 ==> k <= line,
            line == 0 ==> k == 1,
            s@ == text.spec_bytes(),
            len == s@.len(),
            start <= len,
            line_start(s@, (k - 1) as nat) == Some(start as int),
        decreases line - k,
    {
        let mut p = start;
        while p < len && s[p] != 0x0a
            invariant
                start <= p <= len,
                len == s@.len(),
                newline_from(s@, p as int) == newline_from(s@, start as int),
            decreases len - p,
        {
            p = p + 1;
        }
        if p >= len {
            assert(line_start(s@, k as nat) is None);
            assert(forall|m: nat| m >= k ==> #[trigger] line_start(s@, m) is None) by {
                assert forall|m: nat| m >= k implies #[trigger] line_start(s@, m) is None by {
                    lemma_line_start_none(s@, k as nat, m);
                }
            }
            assert(line_start(s@, (line - 1) as nat) is None);
            return None;
        }
        start = p + 1;
        k = k + 1;
    }
    assert(line_start(s@, (if line > 0 { (line - 1) as nat } else { 0 })) == Some(start as int));
    let c = if column > 0 {
        column - 1
    } else {
        0
    };
    match start.checked_add(c) {
        Some(n) => if n < len {
            Some(n)
        } else {
            None
        },
        None => None,
    }
}

proof fn lemma_line_start_none(s: Seq<u8>, k: nat, m: nat)
    requires
        line_start(s, k) is None,
        k <= m,
    ensures
        line_start(s, m) is None,
    decreases m - k,
{
    if k < m {
        lemma_line_start_none(s, k, (m - 1) as nat);
    }
}

/// Byte offsets for serde_json's errors.
pub trait ErrorExt {
    /// The one-based line and column at which the error was detected.
    spec fn line_column(&self) -> (usize, usize);

    /// Zero-based byte offset in `text` at which the error was detected;
    /// `None` where it would reach or pass the end of `text`.
    fn offset_within(&self, text: &str) -> (r: Option<usize>)
        ensures
            match offset_spec(
                text.spec_bytes(),
                self.line_column().0 as nat,
                self.line_column().1 as nat,
            ) {
                Some(n) => r == Some(n as usize),
                None => r is None,
            },
            r is Some ==> r->Some_0 < text.spec_bytes().len(),
    ;
}

impl ErrorExt for serde_json::Error {
    open spec fn line_column(&self) -> (usize, usize) {
        (error_line(*self), error_column(*self))
    }

    fn offset_within(&self, text: &str) -> (r: Option<usize>) {
        offset_of_line_column(text, self.line(), self.column())
    }
}

} // verus!
