use crate::settings::Settings;
use crate::shared::Shared;
use vstd::prelude::*;
use vstd::string::StringSliceAdditionalSpecFns;
use vstd::utf8::encode_utf8;

verus! {

/// A source of input bytes for a [`Reader`].
pub trait Buffer {
    /// The bytes this buffer holds.
    spec fn bytes(&self) -> Seq<u8>;

    /// The bytes this buffer holds.
    fn as_bytes(&self) -> (r: &[u8])
        ensures
            r@ == self.bytes(),
    ;

    /// The number of bytes this buffer holds.
    fn len(&self) -> (r: usize)
        ensures
            r == self.bytes().len(),
    {
        self.as_bytes().len()
    }
}

impl<'a> Buffer for &'a str {
    open spec fn bytes(&self) -> Seq<u8> {
        (**self).spec_bytes()
    }

    fn as_bytes(&self) -> (r: &[u8]) {
        str::as_bytes(*self)
    }
}

impl<'a> Buffer for &'a [u8] {
    open spec fn bytes(&self) -> Seq<u8> {
        (**self)@
    }

    fn as_bytes(&self) -> (r: &[u8]) {
        *self
    }
}

impl Buffer for String {
    open spec fn bytes(&self) -> Seq<u8> {
        encode_utf8(self@)
    }

    fn as_bytes(&self) -> (r: &[u8]) {
        self.as_str().as_bytes()
    }
}

impl<'a> Buffer for &'a String {
    open spec fn bytes(&self) -> Seq<u8> {
        encode_utf8((**self)@)
    }

    fn as_bytes(&self) -> (r: &[u8]) {
        (*self).as_str().as_bytes()
    }
}

impl<'a> Buffer for &'a Vec<u8> {
    open spec fn bytes(&self) -> Seq<u8> {
        (**self)@
    }

    fn as_bytes(&self) -> (r: &[u8]) {
        (*self).as_slice()
    }
}

impl Buffer for Vec<u8> {
    open spec fn bytes(&self) -> Seq<u8> {
        self@
    }

    fn as_bytes(&self) -> (r: &[u8]) {
        self.as_slice()
    }
}

/// Lexical mode of a [`Reader`]: where the last byte handed out stood.
#[derive(Clone, Copy, Debug, PartialEq, Eq, Structural)]
pub enum Mode {
    /// Between tokens, or inside a token that is not a string.
    Normal,
    /// Inside a string literal.
    String,
    /// Just after a backslash inside a string literal.
    StringSlash,
    /// Inside a `// ...` comment.
    InSingleLineComment,
    /// Just after the `/` that opens a `/* ... */` comment: the next byte is
    /// the opener's `*`, which cannot close the comment.
    InMultiLineCommentOpener,
    /// Inside a `/* ... */` comment.
    InMultiLineComment,
    /// Inside a `/* ... */` comment, just after a `*` that may start its `*/`.
    InMultiLineCommentStar,
}

/// State of the token-boundary scan.
#[derive(Clone, Copy, Debug, PartialEq, Eq, Structural)]
pub enum Scan {
    /// Between tokens: whitespace and `:` are skipped.
    Gap,
    /// Inside a `// ...` comment.
    Line,
    /// Inside a `/* ... */` comment.
    Block,
}

/// Whitespace, or the `:` between an object key and its value.
pub open spec fn is_gap(b: u8) -> bool {
    b == 0x3a || b == 0x20 || b == 0x0d || b == 0x0a || b == 0x09
}

/// Where a scan in state `state` from `pos` stops: the first significant
/// byte, or the end of the input. Comments are skipped only when enabled.
pub open spec fn scan(src: Seq<u8>, pos: int, comments: bool, state: Scan) -> int
    decreases src.len() - pos,
{
    if pos < 0 || pos >= src.len() {
        pos
    } else {
        match state {
            Scan::Gap => if is_gap(src[pos]) {
                scan(src, pos + 1, comments, Scan::Gap)
            } else if comments && src[pos] == 0x2f && pos + 1 < src.len() && src[pos + 1] == 0x2f {
                scan(src, pos + 2, comments, Scan::Line)
            } else if comments && src[pos] == 0x2f && pos + 1 < src.len() && src[pos + 1] == 0x2a {
                scan(src, pos + 2, comments, Scan::Block)
            } else {
                pos
            },
            Scan::Line => scan(
                src,
                pos + 1,
                comments,
                if src[pos] == 0x0a {
                    Scan::Gap
                } else {
                    Scan::Line
                },
            ),
            Scan::Block => if src[pos] == 0x2a && pos + 1 < src.len() && src[pos + 1] == 0x2f {
                scan(src, pos + 2, comments, Scan::Gap)
            } else {
                scan(src, pos + 1, comments, Scan::Block)
            },
        }
    }
}

/// Offset of the first token at or after `pos`.
pub open spec fn token_start(src: Seq<u8>, pos: int, comments: bool) -> int {
    scan(src, pos, comments, Scan::Gap)
}

/// The byte at `i`, or `0` outside the input.
pub open spec fn byte_at(src: Seq<u8>, i: int) -> u8 {
    if 0 <= i < src.len() {
        src[i]
    } else {
        0
    }
}

/// The tracker after a token-boundary scan from `pos`. A token start already
/// past `pos` is kept as it is.
pub open spec fn advanced(src: Seq<u8>, t: Shared, pos: int) -> Shared {
    if t.start_pos > pos {
        t
    } else {
        let p = token_start(src, pos, t.settings.allow_comments);
        Shared { start_pos: p as usize, start_ch: byte_at(src, p), ..t }
    }
}

/// One byte handed out in mode `mode` with tracker `t`: the next mode, the
/// next tracker and the byte handed out in place of `src[t.pos]`.
pub open spec fn step(src: Seq<u8>, mode: Mode, t: Shared) -> (Mode, Shared, u8) {
    let pos = t.pos as int;
    let ch = src[pos];
    let t1 = Shared { pos: (t.pos + 1) as usize, ..t };
    match mode {
        Mode::Normal => {
            let t2 = advanced(src, t1, pos);
            if ch == 0x22 {
                (Mode::String, t2, ch)
            } else if ch == 0x2c && t.settings.allow_trailing_comma {
                let t3 = advanced(src, t2, pos + 1);
                let out = if t3.start_ch == 0x5d || t3.start_ch == 0x7d {
                    0x20
                } else {
                    ch
                };
                (Mode::Normal, t3, out)
            } else if ch == 0x2f && t.settings.allow_comments && byte_at(src, pos + 1) == 0x2f {
                (Mode::InSingleLineComment, t2, 0x20)
            } else if ch == 0x2f && t.settings.allow_comments && byte_at(src, pos + 1) == 0x2a {
                (Mode::InMultiLineCommentOpener, t2, 0x20)
            } else {
                (Mode::Normal, t2, ch)
            }
        },
        Mode::String => {
            let m = if ch == 0x5c {
                Mode::StringSlash
            } else if ch == 0x22 {
                Mode::Normal
            } else {
                Mode::String
            };
            (m, t1, ch)
        },
        Mode::StringSlash => (Mode::String, t1, ch),
        Mode::InSingleLineComment => if ch == 0x0a {
            (Mode::Normal, t1, ch)
        } else {
            (Mode::InSingleLineComment, t1, 0x20)
        },
        Mode::InMultiLineCommentOpener => (Mode::InMultiLineComment, t1, 0x20),
        Mode::InMultiLineComment => {
            let m = if ch == 0x2a {
                Mode::InMultiLineCommentStar
            } else {
                Mode::InMultiLineComment
            };
            (m, t1, 0x20)
        },
        Mode::InMultiLineCommentStar => {
            let m = if ch == 0x2f {
                Mode::Normal
            } else if ch == 0x2a {
                Mode::InMultiLineCommentStar
            } else {
                Mode::InMultiLineComment
            };
            (m, t1, 0x20)
        },
    }
}

/// The bytes handed out from tracker position `t.pos` to the end of the input.
pub open spec fn emitted(src: Seq<u8>, mode: Mode, t: Shared) -> Seq<u8>
    decreases src.len() - t.pos,
{
    if t.pos >= src.len() || src.len() > usize::MAX {
        Seq::empty()
    } else {
        let (m, t2, b) = step(src, mode, t);
        seq![b] + emitted(src, m, t2)
    }
}

proof fn lemma_scan_stops_at_token(src: Seq<u8>, pos: int, comments: bool, state: Scan)
    requires
        0 <= pos,
    ensures
        scan(src, pos, comments, state) >= pos,
        scan(src, pos, comments, state) < src.len() ==> scan(
            src,
            scan(src, pos, comments, state),
            comments,
            Scan::Gap,
        ) == scan(src, pos, comments, state),
    decreases src.len() - pos,
{
    if pos < src.len() {
        match state {
            Scan::Gap => {
                if is_gap(src[pos]) {
                    lemma_scan_stops_at_token(src, pos + 1, comments, Scan::Gap);
                } else if comments && src[pos] == 0x2f && pos + 1 < src.len() && src[pos + 1] == 0x2f {
                    lemma_scan_stops_at_token(src, pos + 2, comments, Scan::Line);
                } else if comments && src[pos] == 0x2f && pos + 1 < src.len() && src[pos + 1] == 0x2a {
                    lemma_scan_stops_at_token(src, pos + 2, comments, Scan::Block);
                }
            },
            Scan::Line => {
                let next = if src[pos] == 0x0a {
                    Scan::Gap
                } else {
                    Scan::Line
                };
                lemma_scan_stops_at_token(src, pos + 1, comments, next);
            },
            Scan::Block => {
                if src[pos] == 0x2a && pos + 1 < src.len() && src[pos + 1] == 0x2f {
                    lemma_scan_stops_at_token(src, pos + 2, comments, Scan::Gap);
                } else {
                    lemma_scan_stops_at_token(src, pos + 1, comments, Scan::Block);
                }
            },
        }
    }
}

/// The token-boundary scan never moves backwards, and scanning again from
/// where it stopped stops at the same place.
pub proof fn lemma_token_start_idempotent(src: Seq<u8>, pos: int, comments: bool)
    requires
        0 <= pos,
    ensures
        token_start(src, pos, comments) >= pos,
        token_start(src, token_start(src, pos, comments), comments) == token_start(src, pos, comments),
{
    lemma_scan_stops_at_token(src, pos, comments, Scan::Gap);
}

/// Where a block comment whose text continues at `k` ends: just past the
/// first `*/` at or after `k`, or the end of the input.
pub open spec fn block_close(src: Seq<u8>, k: int) -> int
    decreases src.len() - k,
{
    if k < 0 || k + 1 >= src.len() {
        src.len() as int
    } else if src[k] == 0x2a && src[k + 1] == 0x2f {
        k + 2
    } else {
        block_close(src, k + 1)
    }
}

/// `n` spaces.
pub open spec fn spaces(n: int) -> Seq<u8> {
    Seq::new(n as nat, |i: int| 0x20u8)
}

proof fn lemma_block_close_bounds(src: Seq<u8>, k: int)
    requires
        0 <= k <= src.len(),
    ensures
        k <= block_close(src, k) <= src.len(),
    decreases src.len() - k,
{
    if k + 1 < src.len() && !(src[k] == 0x2a && src[k + 1] == 0x2f) {
        lemma_block_close_bounds(src, k + 1);
    }
}

proof fn lemma_scan_block(src: Seq<u8>, k: int, comments: bool)
    requires
        0 <= k <= src.len(),
    ensures
        scan(src, k, comments, Scan::Block) == scan(src, block_close(src, k), comments, Scan::Gap),
    decreases src.len() - k,
{
    if k < src.len() && !(src[k] == 0x2a && k + 1 < src.len() && src[k + 1] == 0x2f) {
        lemma_scan_block(src, k + 1, comments);
    }
}

proof fn lemma_comment_step(src: Seq<u8>, mode: Mode, t: Shared)
    requires
        t.pos < src.len() <= usize::MAX,
        mode == Mode::InMultiLineComment || mode == Mode::InMultiLineCommentStar,
    ensures
        step(src, mode, t).1 == (Shared { pos: (t.pos + 1) as usize, ..t }),
        step(src, mode, t).2 == 0x20,
        emitted(src, mode, t) == seq![0x20u8] + emitted(
            src,
            step(src, mode, t).0,
            Shared { pos: (t.pos + 1) as usize, ..t },
        ),
{
}

proof fn lemma_block_inner(src: Seq<u8>, mode: Mode, t: Shared)
    requires
        t.pos <= src.len() <= usize::MAX,
        mode == Mode::InMultiLineComment || (mode == Mode::InMultiLineCommentStar && t.pos >= 1
            && src[t.pos - 1] == 0x2a),
    ensures
        ({
            let c = if mode == Mode::InMultiLineCommentStar {
                block_close(src, t.pos - 1)
            } else {
                block_close(src, t.pos as int)
            };
            &&& t.pos <= c <= src.len()
            &&& emitted(src, mode, t) == spaces(c - t.pos) + emitted(
                src,
                Mode::Normal,
                Shared { pos: c as usize, ..t },
            )
        }),
    decreases src.len() - t.pos,
{
    let k = t.pos as int;
    let c = if mode == Mode::InMultiLineCommentStar {
        block_close(src, k - 1)
    } else {
        block_close(src, k)
    };
    let tc = Shared { pos: c as usize, ..t };
    lemma_block_close_bounds(src, k);
    if k < src.len() {
        lemma_comment_step(src, mode, t);
        let m = step(src, mode, t).0;
        let t2 = Shared { pos: (t.pos + 1) as usize, ..t };
        assert(c == if m == Mode::InMultiLineCommentStar {
            block_close(src, k)
        } else if m == Mode::Normal {
            k + 1
        } else {
            block_close(src, k + 1)
        });
        if m == Mode::Normal {
            assert(emitted(src, mode, t) =~= spaces(c - k) + emitted(src, Mode::Normal, tc));
        } else {
            lemma_block_inner(src, m, t2);
            assert(Shared { pos: c as usize, ..t2 } == tc);
            assert(emitted(src, mode, t) =~= spaces(c - k) + emitted(src, Mode::Normal, tc));
        }
    } else {
        assert(emitted(src, mode, t) =~= spaces(c - k) + emitted(src, Mode::Normal, tc));
    }
}

/// A `/* ... */` comment read in normal mode with comments allowed is handed
/// out as spaces up to and including the first `*/` after its opener (the
/// opener's own `*` cannot close it), and reading goes on in normal mode
/// there; the token-boundary scan from the opener skips to the same place.
pub proof fn lemma_block_comment_blanked(src: Seq<u8>, t: Shared)
    requires
        t.pos + 1 < src.len() <= usize::MAX,
        t.settings.allow_comments,
        src[t.pos as int] == 0x2f,
        src[t.pos + 1] == 0x2a,
    ensures
        ({
            let p = t.pos as int;
            let c = block_close(src, p + 2);
            let after = advanced(src, Shared { pos: (p + 1) as usize, ..t }, p);
            &&& p + 2 <= c <= src.len()
            &&& emitted(src, Mode::Normal, t) == spaces(c - p) + emitted(
                src,
                Mode::Normal,
                Shared { pos: c as usize, ..after },
            )
            &&& token_start(src, p, true) == token_start(src, c, true)
        }),
{
    let p = t.pos as int;
    let c = block_close(src, p + 2);
    let after = advanced(src, Shared { pos: (p + 1) as usize, ..t }, p);
    assert(step(src, Mode::Normal, t) == (Mode::InMultiLineCommentOpener, after, 0x20u8));
    assert(emitted(src, Mode::Normal, t) == seq![0x20u8] + emitted(
        src,
        Mode::InMultiLineCommentOpener,
        after,
    ));
    let t2 = Shared { pos: (p + 2) as usize, ..after };
    assert(step(src, Mode::InMultiLineCommentOpener, after) == (Mode::InMultiLineComment, t2, 0x20u8));
    assert(emitted(src, Mode::InMultiLineCommentOpener, after) == seq![0x20u8] + emitted(
        src,
        Mode::InMultiLineComment,
        t2,
    ));
    lemma_block_inner(src, Mode::InMultiLineComment, t2);
    assert(Shared { pos: c as usize, ..t2 } == Shared { pos: c as usize, ..after });
    assert(emitted(src, Mode::Normal, t) =~= spaces(c - p) + emitted(
        src,
        Mode::Normal,
        Shared { pos: c as usize, ..after },
    ));
    lemma_scan_block(src, p + 2, true);
}

/// A tracker for `settings` at the start of the input.
pub open spec fn initial(settings: Settings) -> Shared {
    Shared { settings, start_pos: 0, start_ch: 0, pos: 0, at_end: false }
}

/// A byte source for a streaming JSON parser that hands out one byte per
/// read, records token boundaries in a [`Shared`] tracker, and replaces
/// comments and trailing commas (where the settings allow them) by spaces,
/// so that every other byte keeps its offset.
pub struct Reader<B: Buffer> {
    buf: B,
    mode: Mode,
}

impl<B: Buffer> Reader<B> {
    /// The input bytes.
    pub closed spec fn src(&self) -> Seq<u8> {
        self.buf.bytes()
    }

    /// The current lexical mode.
    pub closed spec fn mode(&self) -> Mode {
        self.mode
    }

    /// A reader at the start of `buf`; the tracker's token start is moved to
    /// the first token.
    pub fn new(buf: B, shared: &mut Shared) -> (r: Reader<B>)
        ensures
            r.src() == buf.bytes(),
            r.mode() == Mode::Normal,
            *final(shared) == advanced(buf.bytes(), *old(shared), 0),
    {
        let r = Reader { buf, mode: Mode::Normal };
        r.advance_start_from(shared, 0);
        r
    }

    /// Moves the tracker's token start to the first significant byte at or
    /// after `pos`: whitespace, `:` and (where enabled) comments are skipped.
    /// A token start already past `pos` is kept, so that repeated calls over
    /// a long run of whitespace do not scan it again.
    pub fn advance_start_from(&self, shared: &mut Shared, pos: usize)
        requires
            self.mode() == Mode::Normal,
        ensures
            *final(shared) == advanced(self.src(), *old(shared), pos as int),
    {
        if shared.start_pos > pos {
            return;
        }
        let src = self.buf.as_bytes();
        let len = src.len();
        let comments = shared.settings.allow_comments;
        let mut p = pos;
        let mut state = Scan::Gap;
        let mut done = false;
        while p < len && !done
            invariant
                src@ == self.src(),
                len == src@.len(),
                pos <= p,
                p <= len || p == pos,
                comments == shared.settings.allow_comments,
                scan(src@, p as int, comments, state) == token_start(src@, pos as int, comments),
                done ==> state == Scan::Gap && scan(src@, p as int, comments, state) == p,
            decreases len - p, if done { 0int } else { 1int },
        {
            let ch = src[p];
            match state {
                Scan::Gap => {
                    if ch == 0x3a || ch == 0x20 || ch == 0x0d || ch == 0x0a || ch == 0x09 {
                        p = p + 1;
                    } else if comments && ch == 0x2f && p + 1 < len && src[p + 1] == 0x2f {
                        p = p + 2;
                        state = Scan::Line;
                    } else if comments && ch == 0x2f && p + 1 < len && src[p + 1] == 0x2a {
                        p = p + 2;
                        state = Scan::Block;
                    } else {
                        done = true;
                    }
                },
                Scan::Line => {
                    p = p + 1;
                    if ch == 0x0a {
                        state = Scan::Gap;
                    }
                },
                Scan::Block => {
                    if ch == 0x2a && p + 1 < len && src[p + 1] == 0x2f {
                        p = p + 2;
                        state = Scan::Gap;
                    } else {
                        p = p + 1;
                    }
                },
            }
        }
        shared.start_pos = p;
        shared.start_ch = if p < len {
            src[p]
        } else {
            0
        };
    }

    /// Hands out the next byte, or `None` at the end of the input. The
    /// tracker's cursor moves past it and its token start is brought up to
    /// date; the byte is replaced by a space where it belongs to a comment or
    /// is a trailing comma that the settings allow.
    pub fn read(&mut self, shared: &mut Shared) -> (r: Option<u8>)
        ensures
            final(self).src() == old(self).src(),
            old(shared).pos >= old(self).src().len() ==> r is None && *final(shared) == (Shared {
                at_end: true,
                ..*old(shared)
            }) && final(self).mode() == old(self).mode(),
            old(shared).pos < old(self).src().len() ==> ({
                let (m, t, b) = step(old(self).src(), old(self).mode(), *old(shared));
                &&& r == Some(b)
                &&& final(self).mode() == m
                &&& *final(shared) == t
            }),
    {
        let src = self.buf.as_bytes();
        let len = src.len();
        let pos = shared.pos;
        if pos >= len {
            shared.at_end = true;
            return None;
        }
        let ch = src[pos];
        shared.pos = pos + 1;
        let out = match self.mode {
            Mode::Normal => {
                self.advance_start_from(shared, pos);
                if ch == 0x22 {
                    self.mode = Mode::String;
                    ch
                } else if ch == 0x2c && shared.settings.allow_trailing_comma {
                    self.advance_start_from(shared, pos + 1);
                    if shared.start_ch == 0x5d || shared.start_ch == 0x7d {
                        0x20
                    } else {
                        ch
                    }
                } else if ch == 0x2f && shared.settings.allow_comments && pos + 1 < len && src[pos
                    + 1] == 0x2f {
                    self.mode = Mode::InSingleLineComment;
                    0x20
                } else if ch == 0x2f && shared.settings.allow_comments && pos + 1 < len && src[pos
                    + 1] == 0x2a {
                    self.mode = Mode::InMultiLineCommentOpener;
                    0x20
                } else {
                    ch
                }
            },
            Mode::String => {
                if ch == 0x5c {
                    self.mode = Mode::StringSlash;
                } else if ch == 0x22 {
                    self.mode = Mode::Normal;
                }
                ch
            },
            Mode::StringSlash => {
                self.mode = Mode::String;
                ch
            },
            Mode::InSingleLineComment => {
                if ch == 0x0a {
                    self.mode = Mode::Normal;
                    ch
                } else {
                    0x20
                }
            },
            Mode::InMultiLineCommentOpener => {
                self.mode = Mode::InMultiLineComment;
                0x20
            },
            Mode::InMultiLineComment => {
                if ch == 0x2a {
                    self.mode = Mode::InMultiLineCommentStar;
                }
                0x20
            },
            Mode::InMultiLineCommentStar => {
                if ch == 0x2f {
                    self.mode = Mode::Normal;
                } else if ch != 0x2a {
                    self.mode = Mode::InMultiLineComment;
                }
                0x20
            },
        };
        Some(out)
    }
}


/// Runs a [`Reader`] over the whole of `buf` and returns the bytes it hands
/// out: the input with comments and allowed trailing commas turned into
/// spaces.
pub fn rewritten<B: Buffer>(buf: B, settings: &Settings) -> (r: Vec<u8>)
    ensures
        r@ == emitted(buf.bytes(), Mode::Normal, advanced(buf.bytes(), initial(*settings), 0)),
{
    let len = buf.len();
    let ghost src = buf.bytes();
    let mut shared = Shared::new(settings);
    assert(shared == initial(*settings));
    let mut reader = Reader::new(buf, &mut shared);
    let ghost whole = emitted(src, Mode::Normal, shared);
    let mut out: Vec<u8> = Vec::new();
    loop
        invariant
            reader.src() == src,
            src.len() == len,
            out@ + emitted(src, reader.mode(), shared) == whole,
        ensures
            out@ == whole,
        decreases src.len() - shared.pos,
    {
        let ghost before = shared;
        let ghost mode = reader.mode();
        match reader.read(&mut shared) {
            Some(b) => {
                assert(out@.push(b) + emitted(src, reader.mode(), shared) =~= out@ + emitted(
                    src,
                    mode,
                    before,
                ));
                out.push(b);
            },
            None => {
                assert(out@ + emitted(src, reader.mode(), shared) =~= out@);
                break ;
            },
        }
    }
    out
}

/// The rewrite keeps every offset: one byte comes out for each byte of the
/// input, and each is the input byte or a space.
pub proof fn lemma_rewrite_keeps_offsets(src: Seq<u8>, mode: Mode, t: Shared)
    requires
        t.pos <= src.len() <= usize::MAX,
    ensures
        emitted(src, mode, t).len() == src.len() - t.pos,
        forall|i: int|
            0 <= i < src.len() - t.pos ==> #[trigger] emitted(src, mode, t)[i] == src[t.pos + i]
                || emitted(src, mode, t)[i] == 0x20,
    decreases src.len() - t.pos,
{
    if t.pos < src.len() {
        let (m, t2, b) = step(src, mode, t);
        lemma_rewrite_keeps_offsets(src, m, t2);
        let rest = emitted(src, m, t2);
        assert forall|i: int| 0 <= i < src.len() - t.pos implies #[trigger] emitted(src, mode, t)[i]
            == src[t.pos + i] || emitted(src, mode, t)[i] == 0x20 by {
            if i > 0 {
                assert(emitted(src, mode, t)[i] == rest[i - 1]);
            }
        }
    }
}

/// With comments and trailing commas both disallowed (strict JSON) the
/// rewrite hands out the input unchanged.
pub proof fn lemma_strict_rewrite_is_identity(src: Seq<u8>, mode: Mode, t: Shared)
    requires
        t.pos <= src.len() <= usize::MAX,
        !t.settings.allow_comments,
        !t.settings.allow_trailing_comma,
        mode == Mode::Normal || mode == Mode::String || mode == Mode::StringSlash,
    ensures
        emitted(src, mode, t) == src.subrange(t.pos as int, src.len() as int),
    decreases src.len() - t.pos,
{
    if t.pos < src.len() {
        let (m, t2, b) = step(src, mode, t);
        lemma_strict_rewrite_is_identity(src, m, t2);
        assert(emitted(src, mode, t) =~= src.subrange(t.pos as int, src.len() as int));
    } else {
        assert(emitted(src, mode, t) =~= src.subrange(t.pos as int, src.len() as int));
    }
}

/// Inside a string literal every byte is handed out unchanged and no comment
/// can begin: a `/` there is never a comment opener.
pub proof fn lemma_string_bytes_kept(src: Seq<u8>, mode: Mode, t: Shared)
    requires
        t.pos < src.len(),
        mode == Mode::String || mode == Mode::StringSlash,
    ensures
        step(src, mode, t).2 == src[t.pos as int],
        step(src, mode, t).0 == Mode::String || step(src, mode, t).0 == Mode::StringSlash || step(
            src,
            mode,
            t,
        ).0 == Mode::Normal,
{
}

} // verus!
