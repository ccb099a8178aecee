//! The HTML part of the grammar, on bytes, with exact byte ranges.

use vstd::prelude::*;
use crate::error::{ErrorKind, ParsingErrorInformation, TwigParseError};
use crate::position::TextRange;
use vstd::string::StringExecFns;

verus! {

pub const SPACE: u8 = 32;
pub const TAB: u8 = 9;
pub const LF: u8 = 10;
pub const CR: u8 = 13;
pub const EQUALS: u8 = 61;
pub const GT: u8 = 62;
pub const LT: u8 = 60;
pub const SLASH: u8 = 47;
pub const LBRACE: u8 = 123;
pub const QUOTE: u8 = 34;

/// The byte classes that end a scanned run.
#[derive(Clone, Copy, Debug, PartialEq, Eq)]
pub enum Delims {
    /// Any byte that is not whitespace.
    NotSpace,
    /// The end of an attribute key.
    Key,
    /// The end of a tag name.
    Name,
    /// The end of a run of plain text.
    Plain,
    /// A double quote.
    Quote,
    /// A `>`.
    Gt,
    /// A `<`.
    Lt,
}

pub open spec fn is_space(b: u8) -> bool {
    b == SPACE || b == TAB || b == LF || b == CR
}

pub open spec fn is_delim(d: Delims, b: u8) -> bool {
    match d {
        Delims::NotSpace => !is_space(b),
        Delims::Key => b == EQUALS || b == SPACE || b == GT || b == SLASH || b == LT || b == LF || b == CR || b == TAB,
        Delims::Name => b == SPACE || b == GT || b == SLASH || b == LT || b == LF || b == CR || b == TAB,
        Delims::Plain => b == LT || b == LBRACE || b == TAB || b == CR || b == LF,
        Delims::Quote => b == QUOTE,
        Delims::Gt => b == GT,
        Delims::Lt => b == LT,
    }
}

/// Where the longest run from `pos` of bytes that are not in `d` ends.
pub open spec fn run_end(s: Seq<u8>, pos: int, d: Delims) -> int
    decreases s.len() - pos,
{
    if pos < 0 || pos >= s.len() || is_delim(d, s[pos]) {
        pos
    } else {
        run_end(s, pos + 1, d)
    }
}

/// Where the whitespace that starts at `pos` ends.
pub open spec fn space_end(s: Seq<u8>, pos: int) -> int {
    run_end(s, pos, Delims::NotSpace)
}

/// The bytes of `r` in `s`.
pub open spec fn text_of(s: Seq<u8>, r: TextRange) -> Seq<u8> {
    s.subrange(r.start as int, r.end as int)
}

pub open spec fn range_of(start: int, end: int) -> TextRange {
    TextRange { start: start as usize, end: end as usize }
}

proof fn lemma_run_end_bounds(s: Seq<u8>, pos: int, d: Delims)
    requires
        0 <= pos <= s.len(),
    ensures
        pos <= run_end(s, pos, d) <= s.len(),
        run_end(s, pos, d) == s.len() || is_delim(d, s[run_end(s, pos, d)]),
        forall|k: int| pos <= k < run_end(s, pos, d) ==> !is_delim(d, #[trigger] s[k]),
    decreases s.len() - pos,
{
    if pos < s.len() && !is_delim(d, s[pos]) {
        lemma_run_end_bounds(s, pos + 1, d);
    }
}

fn delim(d: &Delims, b: u8) -> (r: bool)
    ensures
        r == is_delim(*d, b),
{
    match d {
        Delims::NotSpace => !(b == SPACE || b == TAB || b == LF || b == CR),
        Delims::Key => b == EQUALS || b == SPACE || b == GT || b == SLASH || b == LT || b == LF || b == CR || b == TAB,
        Delims::Name => b == SPACE || b == GT || b == SLASH || b == LT || b == LF || b == CR || b == TAB,
        Delims::Plain => b == LT || b == LBRACE || b == TAB || b == CR || b == LF,
        Delims::Quote => b == QUOTE,
        Delims::Gt => b == GT,
        Delims::Lt => b == LT,
    }
}

/// Scans from `pos` to the first byte in `d`, or to the end of the input.
fn scan_till(input: &[u8], pos: usize, d: Delims) -> (r: usize)
    requires
        pos <= input@.len(),
    ensures
        r == run_end(input@, pos as int, d),
        pos <= r <= input@.len(),
        r == input@.len() || is_delim(d, input@[r as int]),
        forall|k: int| pos <= k < r ==> !is_delim(d, #[trigger] input@[k]),
{
    proof {
        lemma_run_end_bounds(input@, pos as int, d);
    }
    let mut i: usize = pos;
    while i < input.len() && !delim(&d, input[i])
        invariant
            pos <= i <= input@.len(),
            run_end(input@, i as int, d) == run_end(input@, pos as int, d),
        decreases input@.len() - i,
    {
        i = i + 1;
    }
    i
}

fn skip_space(input: &[u8], pos: usize) -> (r: usize)
    requires
        pos <= input@.len(),
    ensures
        r == space_end(input@, pos as int),
        pos <= r <= input@.len(),
{
    scan_till(input, pos, Delims::NotSpace)
}

/// The error points into an input of `len` bytes (or right at its end).
pub open spec fn error_within(e: TwigParseError, len: nat) -> bool {
    match e {
        TwigParseError::ParsingError(info) => info.input <= len,
        TwigParseError::ParsingFailure(info) => info.input <= len,
        TwigParseError::MissingClosing => true,
    }
}

fn error_at(input: usize, kind: ErrorKind) -> (r: TwigParseError)
    ensures
        r matches TwigParseError::ParsingError(info) && info.input == input && info.kind == kind,
{
    TwigParseError::ParsingError(ParsingErrorInformation::from_error_kind(input, kind))
}

/// `key="value"` or a bare `key` at `pos`: the end of what it consumes
/// (trailing whitespace included after a value), the key's range and the
/// value's range (empty, at the key's end, for a bare key).
pub open spec fn tag_argument_spec(s: Seq<u8>, pos: int) -> Option<(int, TextRange, TextRange)> {
    let p = space_end(s, pos);
    let ke = run_end(s, p, Delims::Key);
    if ke == p {
        None
    } else if !(ke + 1 < s.len() && s[ke] == EQUALS && s[ke + 1] == QUOTE) {
        Some((ke, range_of(p, ke), range_of(ke, ke)))
    } else {
        let ve = run_end(s, ke + 2, Delims::Quote);
        if ve == ke + 2 || ve >= s.len() {
            None
        } else {
            Some((space_end(s, ve + 1), range_of(p, ke), range_of(ke + 2, ve)))
        }
    }
}

/// Parses one attribute: optional leading whitespace, a key, and optionally
/// `="value"` followed by whitespace.
pub fn html_tag_argument(input: &[u8], pos: usize) -> (r: Result<(usize, (TextRange, TextRange)), TwigParseError>)
    requires
        pos <= input@.len(),
    ensures
        match r {
            Ok((end, (key, value))) => tag_argument_spec(input@, pos as int) == Some((end as int, key, value)),
            Err(e) => tag_argument_spec(input@, pos as int) is None && e is ParsingError && error_within(e, input@.len()),
        },
{
    let p = skip_space(input, pos);
    let ke = scan_till(input, p, Delims::Key);
    if ke == p {
        return Err(error_at(p, ErrorKind::TakeTill1));
    }
    let key = TextRange { start: p, end: ke };
    if !(ke < input.len() && ke + 1 < input.len() && input[ke] == EQUALS && input[ke + 1] == QUOTE) {
        return Ok((ke, (key, TextRange { start: ke, end: ke })));
    }
    let ve = scan_till(input, ke + 2, Delims::Quote);
    if ve == ke + 2 {
        return Err(error_at(ve, ErrorKind::TakeTill1));
    }
    if ve >= input.len() {
        return Err(error_at(ve, ErrorKind::Tag));
    }
    let end = skip_space(input, ve + 1);
    Ok((end, (key, TextRange { start: ke + 2, end: ve })))
}

proof fn lemma_tag_argument_progress(s: Seq<u8>, pos: int)
    requires
        0 <= pos <= s.len(),
        s.len() <= usize::MAX,
    ensures
        tag_argument_spec(s, pos) matches Some((e, k, v)) ==> pos < e <= s.len() && pos <= k.start < k.end <= e && k.end <= v.start <= v.end <= e,
{
    lemma_run_end_bounds(s, pos, Delims::NotSpace);
    let p = space_end(s, pos);
    lemma_run_end_bounds(s, p, Delims::Key);
    let ke = run_end(s, p, Delims::Key);
    if ke + 1 < s.len() {
        lemma_run_end_bounds(s, ke + 2, Delims::Quote);
        let ve = run_end(s, ke + 2, Delims::Quote);
        if ve < s.len() {
            lemma_run_end_bounds(s, ve + 1, Delims::NotSpace);
        }
    }
}

/// The attributes that repeated parsing finds from `pos` on, in order.
pub open spec fn arguments_from(s: Seq<u8>, pos: int) -> Seq<(TextRange, TextRange)>
    decreases s.len() - pos,
{
    if 0 <= pos <= s.len() {
        match tag_argument_spec(s, pos) {
            Some((e, k, v)) => if pos < e <= s.len() { seq![(k, v)] + arguments_from(s, e) } else { Seq::empty() },
            None => Seq::empty(),
        }
    } else {
        Seq::empty()
    }
}

/// Where repeated attribute parsing from `pos` stops.
pub open spec fn arguments_end(s: Seq<u8>, pos: int) -> int
    decreases s.len() - pos,
{
    if 0 <= pos <= s.len() {
        match tag_argument_spec(s, pos) {
            Some((e, k, v)) => if pos < e <= s.len() { arguments_end(s, e) } else { pos },
            None => pos,
        }
    } else {
        pos
    }
}

/// Parses attributes for as long as they match. The list keeps every
/// attribute in order; where a key repeats, the last one is what counts
/// (see `argument_map`).
pub fn html_tag_argument_map(input: &[u8], pos: usize) -> (r: Result<(usize, Vec<(TextRange, TextRange)>), TwigParseError>)
    requires
        pos <= input@.len(),
    ensures
        r matches Ok((end, args)) && end == arguments_end(input@, pos as int) && args@ == arguments_from(input@, pos as int),
{
    let mut args: Vec<(TextRange, TextRange)> = Vec::new();
    let mut p: usize = pos;
    let n = input.len();
    loop
        invariant
            n == input@.len(),
            pos <= p <= input@.len(),
            arguments_end(input@, p as int) == arguments_end(input@, pos as int),
            args@ + arguments_from(input@, p as int) == arguments_from(input@, pos as int),
        decreases input@.len() - p,
    {
        proof {
            lemma_tag_argument_progress(input@, p as int);
        }
        match html_tag_argument(input, p) {
            Ok((end, arg)) => {
                proof {
                    assert(arguments_from(input@, p as int) == seq![arg] + arguments_from(input@, end as int));
                    assert(args@.push(arg) + arguments_from(input@, end as int) == args@ + arguments_from(input@, p as int));
                }
                args.push(arg);
                p = end;
            },
            Err(_) => {
                proof {
                    assert(arguments_from(input@, p as int) == Seq::<(TextRange, TextRange)>::empty());
                    assert(args@ + Seq::<(TextRange, TextRange)>::empty() == args@);
                }
                return Ok((p, args));
            },
        }
    }
}

/// The attribute map of a list: each key's text maps to the text of the value
/// that comes last for it.
pub open spec fn argument_map(s: Seq<u8>, args: Seq<(TextRange, TextRange)>) -> Map<Seq<u8>, Seq<u8>>
    decreases args.len(),
{
    if args.len() == 0 {
        Map::empty()
    } else {
        argument_map(s, args.drop_last()).insert(text_of(s, args.last().0), text_of(s, args.last().1))
    }
}

/// Looks a key up in an attribute list as in its map: the value of the last
/// attribute with that key, if there is one.
pub fn argument_value(input: &[u8], args: &Vec<(TextRange, TextRange)>, key: &[u8]) -> (r: Option<TextRange>)
    requires
        forall|i: int| 0 <= i < args@.len() ==> (#[trigger] args@[i]).0.valid_in(input@.len()),
    ensures
        match r {
            Some(v) => argument_map(input@, args@).contains_key(key@) && argument_map(input@, args@)[key@] == text_of(input@, v),
            None => !argument_map(input@, args@).contains_key(key@),
        },
{
    let mut i: usize = args.len();
    proof {
        assert(args@.subrange(0, args@.len() as int) == args@);
    }
    while i > 0
        invariant
            i <= args@.len(),
            forall|k: int| 0 <= k < args@.len() ==> (#[trigger] args@[k]).0.valid_in(input@.len()),
            argument_map(input@, args@).contains_key(key@) == argument_map(input@, args@.subrange(0, i as int)).contains_key(key@),
            argument_map(input@, args@).contains_key(key@) ==> argument_map(input@, args@)[key@] == argument_map(input@, args@.subrange(0, i as int))[key@],
        decreases i,
    {
        let entry = &args[i - 1];
        proof {
            let pre = args@.subrange(0, i as int);
            assert(pre.drop_last() == args@.subrange(0, i - 1));
            assert(pre.last() == *entry);
        }
        if text_equals(input, &entry.0, key) {
            return Some(entry.1);
        }
        i = i - 1;
    }
    None
}

/// A run of text, with whitespace around it: `plain` is the text itself and
/// `range` all that was consumed.
#[derive(Debug, PartialEq)]
pub struct HtmlPlain {
    pub plain: TextRange,
    pub range: TextRange,
}

/// A tag with its attributes and children. `range` runs from the whitespace
/// before the opening tag to the end of the whitespace after the closing tag;
/// the children cover `children_range` without gaps.
#[derive(Debug, PartialEq)]
pub struct HtmlTag {
    pub name: TextRange,
    pub self_closed: bool,
    pub arguments: Vec<(TextRange, TextRange)>,
    pub children: Vec<HtmlNode>,
    pub children_range: TextRange,
    pub range: TextRange,
}

#[derive(Debug, PartialEq)]
pub enum HtmlNode {
    Tag(HtmlTag),
    Plain(HtmlPlain),
}

pub open spec fn node_range(n: HtmlNode) -> TextRange {
    match n {
        HtmlNode::Tag(t) => t.range,
        HtmlNode::Plain(p) => p.range,
    }
}

/// The nodes cover `[start, end)` one after the other, each a nonempty range.
pub open spec fn contiguous(nodes: Seq<HtmlNode>, start: int, end: int) -> bool {
    &&& nodes.len() == 0 ==> start == end
    &&& nodes.len() > 0 ==> node_range(nodes[0]).start == start && node_range(nodes.last()).end == end
    &&& forall|i: int| 0 <= i < nodes.len() - 1 ==> (#[trigger] node_range(nodes[i])).end == node_range(nodes[i + 1]).start
    &&& forall|i: int| 0 <= i < nodes.len() ==> (#[trigger] node_range(nodes[i])).start < node_range(nodes[i]).end
}

/// Each node's range is the union of its parts: a tag's children cover its
/// children range without gaps, inside the tag's own range, and so on down
/// the tree.
pub open spec fn node_wf(n: HtmlNode) -> bool
    decreases n,
{
    match n {
        HtmlNode::Tag(t) => {
            &&& t.range.start < t.children_range.start <= t.children_range.end <= t.range.end
            &&& t.range.start <= t.name.start < t.name.end <= t.children_range.start
            &&& contiguous(t.children@, t.children_range.start as int, t.children_range.end as int)
            &&& forall|i: int| 0 <= i < t.children@.len() ==> node_wf(#[trigger] t.children@[i])
        },
        HtmlNode::Plain(p) => p.range.start <= p.plain.start < p.plain.end <= p.range.end,
    }
}

/// Names of tags that never have children or a closing tag.
pub open spec fn is_non_closing_name(t: Seq<u8>) -> bool {
    ||| t == seq![33u8, 68u8, 79u8, 67u8, 84u8, 89u8, 80u8, 69u8]
    ||| t == seq![109u8, 101u8, 116u8, 97u8]
    ||| t == seq![105u8, 110u8, 112u8, 117u8, 116u8]
    ||| t == seq![105u8, 109u8, 103u8]
    ||| t == seq![98u8, 114u8]
    ||| t == seq![104u8, 114u8]
}

fn text_equals(input: &[u8], r: &TextRange, lit: &[u8]) -> (b: bool)
    requires
        r.valid_in(input@.len()),
    ensures
        b == (text_of(input@, *r) == lit@),
{
    if r.end - r.start != lit.len() {
        proof {
            assert(text_of(input@, *r).len() != lit@.len());
        }
        return false;
    }
    let mut i: usize = 0;
    while i < lit.len()
        invariant
            r.valid_in(input@.len()),
            r.end - r.start == lit@.len(),
            i <= lit@.len(),
            forall|k: int| 0 <= k < i ==> input@[r.start + k] == lit@[k],
        decreases lit@.len() - i,
    {
        if input[r.start + i] != lit[i] {
            proof {
                assert(text_of(input@, *r)[i as int] != lit@[i as int]);
            }
            return false;
        }
        i = i + 1;
    }
    proof {
        assert(text_of(input@, *r) =~= lit@);
    }
    true
}

fn is_non_closing_tag(input: &[u8], name: &TextRange) -> (b: bool)
    requires
        name.valid_in(input@.len()),
    ensures
        b == is_non_closing_name(text_of(input@, *name)),
{
    let doctype: [u8; 8] = [33, 68, 79, 67, 84, 89, 80, 69];
    let meta: [u8; 4] = [109, 101, 116, 97];
    let input_tag: [u8; 5] = [105, 110, 112, 117, 116];
    let img: [u8; 3] = [105, 109, 103];
    let br: [u8; 2] = [98, 114];
    let hr: [u8; 2] = [104, 114];
    proof {
        assert(doctype@ == seq![33u8, 68u8, 79u8, 67u8, 84u8, 89u8, 80u8, 69u8]);
        assert(meta@ == seq![109u8, 101u8, 116u8, 97u8]);
        assert(input_tag@ == seq![105u8, 110u8, 112u8, 117u8, 116u8]);
        assert(img@ == seq![105u8, 109u8, 103u8]);
        assert(br@ == seq![98u8, 114u8]);
        assert(hr@ == seq![104u8, 114u8]);
    }
    text_equals(input, name, doctype.as_slice()) || text_equals(input, name, meta.as_slice())
        || text_equals(input, name, input_tag.as_slice()) || text_equals(input, name, img.as_slice())
        || text_equals(input, name, br.as_slice()) || text_equals(input, name, hr.as_slice())
}

proof fn lemma_arguments_end_bounds(s: Seq<u8>, pos: int)
    requires
        0 <= pos <= s.len(),
        s.len() <= usize::MAX,
    ensures
        pos <= arguments_end(s, pos) <= s.len(),
    decreases s.len() - pos,
{
    lemma_tag_argument_progress(s, pos);
    if let Some((e, k, v)) = tag_argument_spec(s, pos) {
        lemma_arguments_end_bounds(s, e);
    }
}

/// An opening tag at `pos`: where it ends, the name's range, whether it is
/// self-closed (by `/>` or by its name) and its attributes.
pub open spec fn open_tag_spec(s: Seq<u8>, pos: int) -> Option<(int, TextRange, bool, Seq<(TextRange, TextRange)>)> {
    let p = space_end(s, pos);
    let ne = run_end(s, p + 1, Delims::Name);
    let ae = arguments_end(s, ne);
    let name = range_of(p + 1, ne);
    let args = arguments_from(s, ne);
    if p >= s.len() || s[p] != LT || ne == p + 1 {
        None
    } else if ae < s.len() && s[ae] == GT {
        Some((ae + 1, name, is_non_closing_name(text_of(s, name)), args))
    } else if ae + 1 < s.len() && s[ae] == SLASH && s[ae + 1] == GT {
        Some((ae + 2, name, true, args))
    } else {
        None
    }
}

proof fn lemma_open_tag_bounds(s: Seq<u8>, pos: int)
    requires
        0 <= pos <= s.len(),
        s.len() <= usize::MAX,
    ensures
        open_tag_spec(s, pos) matches Some((e, name, c, args)) ==> pos < name.start < name.end < e <= s.len()
            && pos <= space_end(s, pos) && name.start == space_end(s, pos) + 1,
{
    lemma_run_end_bounds(s, pos, Delims::NotSpace);
    let p = space_end(s, pos);
    if p < s.len() {
        lemma_run_end_bounds(s, p + 1, Delims::Name);
        lemma_arguments_end_bounds(s, run_end(s, p + 1, Delims::Name));
    }
}

/// Parses an opening tag: whitespace, `<`, a name, attributes, then `>` or `/>`.
pub fn html_open_tag(input: &[u8], pos: usize) -> (r: Result<(usize, (TextRange, bool, Vec<(TextRange, TextRange)>)), TwigParseError>)
    requires
        pos <= input@.len(),
    ensures
        match r {
            Ok((end, (name, closed, args))) => open_tag_spec(input@, pos as int) == Some((end as int, name, closed, args@)),
            Err(e) => open_tag_spec(input@, pos as int) is None && e is ParsingError && error_within(e, input@.len()),
        },
{
    let n = input.len();
    let p = skip_space(input, pos);
    if p >= n || input[p] != LT {
        return Err(error_at(p, ErrorKind::Tag));
    }
    let ne = scan_till(input, p + 1, Delims::Name);
    if ne == p + 1 {
        return Err(error_at(ne, ErrorKind::TakeTill1));
    }
    let name = TextRange { start: p + 1, end: ne };
    let (ae, args) = match html_tag_argument_map(input, ne) {
        Ok(v) => v,
        Err(e) => return Err(e),
    };
    proof {
        lemma_arguments_end_bounds(input@, ne as int);
    }
    if ae < n && input[ae] == GT {
        let closed = is_non_closing_tag(input, &name);
        Ok((ae + 1, (name, closed, args)))
    } else if ae < n && ae + 1 < n && input[ae] == SLASH && input[ae + 1] == GT {
        Ok((ae + 2, (name, true, args)))
    } else {
        Err(error_at(ae, ErrorKind::Alt))
    }
}

/// A closing tag for `name` at `pos`: whitespace, `</`, the name, anything up
/// to `>`, then whitespace. Yields where it ends.
pub open spec fn close_tag_spec(s: Seq<u8>, pos: int, name: Seq<u8>) -> Option<int> {
    let p = space_end(s, pos);
    let q = run_end(s, p + 2 + name.len(), Delims::Gt);
    if close_tag_started(s, pos) && p + 2 + name.len() <= s.len() && s.subrange(p + 2, p + 2 + name.len()) == name && q < s.len() {
        Some(space_end(s, q + 1))
    } else {
        None
    }
}

/// `</` follows the whitespace at `pos`.
pub open spec fn close_tag_started(s: Seq<u8>, pos: int) -> bool {
    let p = space_end(s, pos);
    p + 1 < s.len() && s[p] == LT && s[p + 1] == SLASH
}

/// `</` was seen but not followed by `name`: no other alternative may be tried.
pub open spec fn close_tag_mismatch(s: Seq<u8>, pos: int, name: Seq<u8>) -> bool {
    let p = space_end(s, pos);
    close_tag_started(s, pos) && !(p + 2 + name.len() <= s.len() && s.subrange(p + 2, p + 2 + name.len()) == name)
}

/// Whether `input` holds the text of `r` at `at`.
fn text_at(input: &[u8], at: usize, r: &TextRange) -> (b: bool)
    requires
        r.valid_in(input@.len()),
        at <= input@.len(),
    ensures
        b == (at + (r.end - r.start) <= input@.len() && input@.subrange(at as int, at + (r.end - r.start)) == text_of(input@, *r)),
{
    let len = r.end - r.start;
    let n = input.len();
    if len > n - at {
        return false;
    }
    let mut i: usize = 0;
    while i < len
        invariant
            r.valid_in(input@.len()),
            n == input@.len(),
            len == r.end - r.start,
            at + len <= input@.len(),
            i <= len,
            input@.subrange(at as int, at + i) == input@.subrange(r.start as int, r.start + i),
        decreases len - i,
    {
        if input[at + i] != input[r.start + i] {
            proof {
                assert(input@.subrange(at as int, at + len)[i as int] != text_of(input@, *r)[i as int]);
            }
            return false;
        }
        proof {
            assert(input@.subrange(at as int, at + i + 1) == input@.subrange(at as int, at + i).push(input@[at + i]));
            assert(input@.subrange(r.start as int, r.start + i + 1) == input@.subrange(r.start as int, r.start + i).push(input@[r.start + i]));
        }
        i = i + 1;
    }
    true
}

/// Parses the closing tag of the tag whose name is `name`. A `</` followed by
/// another name is a failure; anything else that does not match is an error.
pub fn html_close_tag(input: &[u8], pos: usize, name: &TextRange) -> (r: Result<usize, TwigParseError>)
    requires
        pos <= input@.len(),
        name.valid_in(input@.len()),
    ensures
        match r {
            Ok(end) => close_tag_spec(input@, pos as int, text_of(input@, *name)) == Some(end as int),
            Err(TwigParseError::ParsingFailure(info)) => close_tag_mismatch(input@, pos as int, text_of(input@, *name)) && info.input <= input@.len(),
            Err(TwigParseError::ParsingError(info)) => info.input <= input@.len() && close_tag_spec(input@, pos as int, text_of(input@, *name)) is None
                && !close_tag_mismatch(input@, pos as int, text_of(input@, *name)),
            Err(TwigParseError::MissingClosing) => false,
        },
{
    let n = input.len();
    let p = skip_space(input, pos);
    if !(p < n && p + 1 < n && input[p] == LT && input[p + 1] == SLASH) {
        return Err(error_at(p, ErrorKind::Tag));
    }
    if !text_at(input, p + 2, name) {
        return Err(TwigParseError::ParsingFailure(ParsingErrorInformation::from_error_kind(p + 2, ErrorKind::Tag)));
    }
    let q = scan_till(input, p + 2 + (name.end - name.start), Delims::Gt);
    if q >= n {
        return Err(error_at(q, ErrorKind::Tag));
    }
    Ok(skip_space(input, q + 1))
}

/// A run of plain text at `pos`, with the whitespace around it.
pub open spec fn plain_text_spec(s: Seq<u8>, pos: int) -> Option<(int, TextRange)> {
    let p = space_end(s, pos);
    let te = run_end(s, p, Delims::Plain);
    if te == p {
        None
    } else {
        Some((space_end(s, te), range_of(p, te)))
    }
}

/// Parses plain text: whitespace, then bytes up to `<`, `{`, a tab or a line
/// break, then whitespace.
pub fn html_plain_text(input: &[u8], pos: usize) -> (r: Result<(usize, HtmlNode), TwigParseError>)
    requires
        pos <= input@.len(),
    ensures
        match r {
            Ok((end, node)) => plain_text_spec(input@, pos as int) matches Some((e, plain)) && e == end
                && node == HtmlNode::Plain(HtmlPlain { plain, range: range_of(pos as int, e) })
                && pos < end && node_wf(node),
            Err(e) => plain_text_spec(input@, pos as int) is None && e is ParsingError && error_within(e, input@.len()),
        },
{
    let p = skip_space(input, pos);
    let te = scan_till(input, p, Delims::Plain);
    if te == p {
        return Err(error_at(p, ErrorKind::TakeTill1));
    }
    let end = skip_space(input, te);
    Ok((end, HtmlNode::Plain(HtmlPlain { plain: TextRange { start: p, end: te }, range: TextRange { start: pos, end } })))
}

/// Relies on std's `String::from_utf8_lossy`: reads bytes as text for a
/// message; nothing is assumed of the result.
#[verifier::external_body]
fn lossy_text(b: &[u8]) -> String {
    String::from_utf8_lossy(b).into_owned()
}

/// The message of an unclosed tag, from its name and its attributes' text.
pub open spec fn unclosed_message(name: Seq<char>, arguments: Seq<char>) -> Seq<char> {
    "Missing closing tag for opening tag '"@ + name + "' with arguments '"@ + arguments + "'"@
}

/// The message of a failure to find the closing tag of the tag named by
/// `name`, whose attributes are written in `arguments`.
fn unclosed_tag_context(input: &[u8], name: &TextRange, arguments: &TextRange) -> (r: String)
    requires
        name.valid_in(input@.len()),
        arguments.valid_in(input@.len()),
    ensures
        exists|n: Seq<char>, a: Seq<char>| r@ == unclosed_message(n, a),
{
    let name_text = lossy_text(vstd::slice::slice_subrange(input, name.start, name.end));
    let arguments_text = lossy_text(vstd::slice::slice_subrange(input, arguments.start, arguments.end));
    let mut message = <String as StringExecFns>::from_str("Missing closing tag for opening tag '");
    message.append(name_text.as_str());
    message.append("' with arguments '");
    message.append(arguments_text.as_str());
    message.append("'");
    proof {
        assert(message@ == unclosed_message(name_text@, arguments_text@));
    }
    message
}

/// How parsing a complete tag at `pos` ends: `Ok` with where it ends,
/// `Err(false)` for an error (another alternative may be tried), `Err(true)`
/// for a failure (the tag started and cannot be finished).
pub open spec fn tag_outcome(s: Seq<u8>, pos: int) -> Result<int, bool>
    decreases s.len() - pos, 1nat,
{
    if pos < 0 || pos > s.len() {
        Err(false)
    } else {
        match open_tag_spec(s, pos) {
            None => Err(false),
            Some((oe, name, closed, args)) => if closed {
                Ok(oe)
            } else if !(pos < oe <= s.len()) {
                Err(true)
            } else {
                match children_outcome(s, oe) {
                    Ok(ce) => match close_tag_spec(s, ce, text_of(s, name)) {
                        Some(e) => Ok(e),
                        None => Err(true),
                    },
                    Err(_) => Err(true),
                }
            },
        }
    }
}

/// How parsing one node at `pos` ends: a tag, or else plain text.
pub open spec fn node_outcome(s: Seq<u8>, pos: int) -> Result<int, bool>
    decreases s.len() - pos, 2nat,
{
    if pos < 0 || pos > s.len() {
        Err(false)
    } else {
        match tag_outcome(s, pos) {
            Err(false) => match plain_text_spec(s, pos) {
                Some((e, _)) => Ok(e),
                None => Err(false),
            },
            other => other,
        }
    }
}

/// How parsing nodes for as long as they match from `pos` ends: where the
/// nodes stop, or a failure of one of them.
pub open spec fn children_outcome(s: Seq<u8>, pos: int) -> Result<int, bool>
    decreases s.len() - pos, 3nat,
{
    if pos < 0 || pos > s.len() {
        Ok(pos)
    } else {
        match node_outcome(s, pos) {
            Ok(e) => if pos < e <= s.len() { children_outcome(s, e) } else { Ok(pos) },
            Err(false) => Ok(pos),
            Err(true) => Err(true),
        }
    }
}

/// `n` is what the grammar makes of the text at the start of its range: each
/// field is fixed by the text, down the whole tree.
pub open spec fn is_parse_of(s: Seq<u8>, n: HtmlNode) -> bool
    decreases n,
{
    match n {
        HtmlNode::Tag(t) => {
            &&& open_tag_spec(s, t.range.start as int) == Some((t.children_range.start as int, t.name, t.self_closed, t.arguments@))
            &&& tag_outcome(s, t.range.start as int) == Ok::<int, bool>(t.range.end as int)
            &&& t.self_closed ==> t.children@.len() == 0 && t.children_range.end == t.children_range.start
            &&& !t.self_closed ==> children_outcome(s, t.children_range.start as int) == Ok::<int, bool>(t.children_range.end as int)
            &&& forall|i: int| 0 <= i < t.children@.len() ==> is_parse_of(s, #[trigger] t.children@[i])
        },
        HtmlNode::Plain(p) => {
            &&& tag_outcome(s, p.range.start as int) == Err::<int, bool>(false)
            &&& plain_text_spec(s, p.range.start as int) == Some((p.range.end as int, p.plain))
        },
    }
}

/// Parses a tag with all it holds: the opening tag, and unless it is
/// self-closed, the child nodes and the matching closing tag. A missing or
/// wrong closing tag is a failure.
pub fn html_complete_tag(input: &[u8], pos: usize) -> (r: Result<(usize, HtmlNode), TwigParseError>)
    requires
        pos <= input@.len(),
    ensures
        match r {
            Ok((end, node)) => {
                &&& pos < end <= input@.len()
                &&& node_wf(node)
                &&& node_range(node) == range_of(pos as int, end as int)
                &&& node matches HtmlNode::Tag(t) && open_tag_spec(input@, pos as int) == Some(
                    (t.children_range.start as int, t.name, t.self_closed, t.arguments@),
                ) && (t.self_closed ==> t.children@.len() == 0 && t.children_range.end == end)
                  && (!t.self_closed ==> close_tag_spec(input@, t.children_range.end as int, text_of(input@, t.name)) == Some(end as int))
                &&& tag_outcome(input@, pos as int) == Ok::<int, bool>(end as int)
                &&& is_parse_of(input@, node)
            },
            Err(TwigParseError::ParsingError(info)) => open_tag_spec(input@, pos as int) is None && info.context is Some
                && tag_outcome(input@, pos as int) == Err::<int, bool>(false) && info.input <= input@.len(),
            Err(TwigParseError::ParsingFailure(info)) => open_tag_spec(input@, pos as int) is Some
                && tag_outcome(input@, pos as int) == Err::<int, bool>(true) && info.input <= input@.len()
                && ((open_tag_spec(input@, pos as int) matches Some((oe, _, _, _)) && children_outcome(input@, oe) is Ok)
                    ==> (info.context matches Some(c) && exists|n: Seq<char>, a: Seq<char>| c@ == unclosed_message(n, a))),
            Err(TwigParseError::MissingClosing) => false,
        },
    decreases input@.len() - pos, 1nat,
{
    let n = input.len();
    proof {
        lemma_open_tag_bounds(input@, pos as int);
    }
    let (open_end, (name, self_closed, arguments)) = match html_open_tag(input, pos) {
        Ok(v) => v,
        Err(TwigParseError::ParsingError(info)) => {
            return Err(TwigParseError::ParsingError(ParsingErrorInformation::add_context(pos, "open tag expected", info)));
        },
        Err(e) => return Err(e),
    };
    if self_closed {
        let tag = HtmlTag {
            name,
            self_closed,
            arguments,
            children: Vec::new(),
            children_range: TextRange { start: open_end, end: open_end },
            range: TextRange { start: pos, end: open_end },
        };
        return Ok((open_end, HtmlNode::Tag(tag)));
    }
    let (children_end, children) = match html_children(input, open_end) {
        Ok(v) => v,
        Err(e) => return Err(e),
    };
    match html_close_tag(input, children_end, &name) {
        Ok(end) => {
            let tag = HtmlTag {
                name,
                self_closed,
                arguments,
                children,
                children_range: TextRange { start: open_end, end: children_end },
                range: TextRange { start: pos, end },
            };
            proof {
                lemma_run_end_bounds(input@, children_end as int, Delims::NotSpace);
                let p = space_end(input@, children_end as int);
                lemma_run_end_bounds(input@, p + 2 + text_of(input@, name).len(), Delims::Gt);
                let q = run_end(input@, p + 2 + text_of(input@, name).len(), Delims::Gt);
                lemma_run_end_bounds(input@, q + 1, Delims::NotSpace);
            }
            Ok((end, HtmlNode::Tag(tag)))
        },
        Err(TwigParseError::ParsingError(info)) | Err(TwigParseError::ParsingFailure(info)) => {
            let mut arguments_start = skip_space(input, name.end);
            if arguments_start > open_end - 1 {
                arguments_start = open_end - 1;
            }
            let arguments_range = TextRange { start: arguments_start, end: open_end - 1 };
            let context = unclosed_tag_context(input, &name, &arguments_range);
            Err(TwigParseError::ParsingFailure(ParsingErrorInformation::add_dynamic_context(children_end, context, info)))
        },
        Err(TwigParseError::MissingClosing) => Err(TwigParseError::MissingClosing),
    }
}

/// Parses one node: a tag, or else plain text. A failure is passed on as it is.
pub fn document_node(input: &[u8], pos: usize) -> (r: Result<(usize, HtmlNode), TwigParseError>)
    requires
        pos <= input@.len(),
    ensures
        match r {
            Ok((end, node)) => {
                &&& pos < end <= input@.len()
                &&& node_wf(node)
                &&& node_range(node) == range_of(pos as int, end as int)
                &&& open_tag_spec(input@, pos as int) is Some ==> node is Tag
                &&& open_tag_spec(input@, pos as int) is None ==> (plain_text_spec(input@, pos as int) matches Some((e, plain))
                    && node == HtmlNode::Plain(HtmlPlain { plain, range: range_of(pos as int, e) }))
                &&& node_outcome(input@, pos as int) == Ok::<int, bool>(end as int)
                &&& is_parse_of(input@, node)
            },
            Err(TwigParseError::ParsingError(info)) => open_tag_spec(input@, pos as int) is None && plain_text_spec(input@, pos as int) is None
                && node_outcome(input@, pos as int) == Err::<int, bool>(false) && info.input <= input@.len(),
            Err(TwigParseError::ParsingFailure(info)) => open_tag_spec(input@, pos as int) is Some
                && node_outcome(input@, pos as int) == Err::<int, bool>(true) && info.input <= input@.len(),
            Err(TwigParseError::MissingClosing) => false,
        },
    decreases input@.len() - pos, 2nat,
{
    match html_complete_tag(input, pos) {
        Ok(v) => Ok(v),
        Err(TwigParseError::ParsingError(_)) => {
            let r = html_plain_text(input, pos);
            proof {
                if r is Ok {
                    lemma_run_end_bounds(input@, pos as int, Delims::NotSpace);
                    let p = space_end(input@, pos as int);
                    lemma_run_end_bounds(input@, p, Delims::Plain);
                    lemma_run_end_bounds(input@, run_end(input@, p, Delims::Plain), Delims::NotSpace);
                }
            }
            r
        },
        Err(e) => Err(e),
    }
}

/// Parses nodes for as long as they match; a failure is passed on.
pub fn html_children(input: &[u8], pos: usize) -> (r: Result<(usize, Vec<HtmlNode>), TwigParseError>)
    requires
        pos <= input@.len(),
    ensures
        match r {
            Ok((end, nodes)) => {
                &&& pos <= end <= input@.len()
                &&& contiguous(nodes@, pos as int, end as int)
                &&& forall|i: int| 0 <= i < nodes@.len() ==> node_wf(#[trigger] nodes@[i])
                &&& open_tag_spec(input@, end as int) is None && plain_text_spec(input@, end as int) is None
                &&& children_outcome(input@, pos as int) == Ok::<int, bool>(end as int)
                &&& forall|i: int| 0 <= i < nodes@.len() ==> is_parse_of(input@, #[trigger] nodes@[i])
            },
            Err(e) => e is ParsingFailure && children_outcome(input@, pos as int) == Err::<int, bool>(true) && error_within(e, input@.len()),
        },
    decreases input@.len() - pos, 3nat,
{
    let mut nodes: Vec<HtmlNode> = Vec::new();
    let mut p: usize = pos;
    loop
        invariant
            pos <= p <= input@.len(),
            contiguous(nodes@, pos as int, p as int),
            forall|i: int| 0 <= i < nodes@.len() ==> node_wf(#[trigger] nodes@[i]),
            forall|i: int| 0 <= i < nodes@.len() ==> is_parse_of(input@, #[trigger] nodes@[i]),
            children_outcome(input@, p as int) == children_outcome(input@, pos as int),
        decreases input@.len() - p,
    {
        match document_node(input, p) {
            Ok((end, node)) => {
                let ghost before = nodes@;
                nodes.push(node);
                proof {
                    assert(nodes@.drop_last() == before);
                    assert forall|i: int| 0 <= i < nodes@.len() - 1 implies (#[trigger] node_range(nodes@[i])).end == node_range(nodes@[i + 1]).start by {
                        if i < before.len() - 1 {
                            assert(nodes@[i] == before[i] && nodes@[i + 1] == before[i + 1]);
                        } else {
                            assert(nodes@[i] == before.last());
                        }
                    }
                    assert forall|i: int| 0 <= i < nodes@.len() implies node_wf(#[trigger] nodes@[i]) && is_parse_of(input@, nodes@[i]) by {
                        if i < before.len() {
                            assert(nodes@[i] == before[i]);
                        }
                    }
                }
                p = end;
            },
            Err(TwigParseError::ParsingError(_)) => {
                return Ok((p, nodes));
            },
            Err(e) => return Err(e),
        }
    }
}

/// A node of a whole document: what the grammar makes of the text at its
/// start, or, where nothing matches there, plain text up to the next `<`.
pub open spec fn is_document_node_of(s: Seq<u8>, n: HtmlNode) -> bool {
    let p = node_range(n).start as int;
    let q = run_end(s, p + 1, Delims::Lt);
    if node_outcome(s, p) is Ok {
        is_parse_of(s, n)
    } else {
        n == HtmlNode::Plain(HtmlPlain { plain: range_of(p, q), range: range_of(p, q) })
    }
}

/// How many nodes of a document stand where nothing matched.
pub open spec fn unmatched_count(s: Seq<u8>, nodes: Seq<HtmlNode>) -> nat
    decreases nodes.len(),
{
    if nodes.len() == 0 {
        0
    } else {
        unmatched_count(s, nodes.drop_last()) + if node_outcome(s, node_range(nodes.last()).start as int) is Ok { 0nat } else { 1nat }
    }
}

/// Parses a whole document. It never gives up: where no node matches, the
/// error is recorded and the bytes up to the next `<` become plain text, so
/// that the nodes cover the whole input, in order and without gaps.
pub fn parse(input: &[u8]) -> (r: (Vec<HtmlNode>, Vec<TwigParseError>))
    ensures
        contiguous(r.0@, 0, input@.len() as int),
        forall|i: int| 0 <= i < r.0@.len() ==> node_wf(#[trigger] r.0@[i]),
        forall|i: int| 0 <= i < r.0@.len() ==> is_document_node_of(input@, #[trigger] r.0@[i]),
        r.1@.len() == unmatched_count(input@, r.0@),
        forall|k: int| 0 <= k < r.1@.len() ==> error_within(#[trigger] r.1@[k], input@.len()),
{
    let mut nodes: Vec<HtmlNode> = Vec::new();
    let mut errors: Vec<TwigParseError> = Vec::new();
    let mut p: usize = 0;
    while p < input.len()
        invariant
            p <= input@.len(),
            contiguous(nodes@, 0, p as int),
            forall|i: int| 0 <= i < nodes@.len() ==> node_wf(#[trigger] nodes@[i]),
            forall|i: int| 0 <= i < nodes@.len() ==> is_document_node_of(input@, #[trigger] nodes@[i]),
            errors@.len() == unmatched_count(input@, nodes@),
            forall|k: int| 0 <= k < errors@.len() ==> error_within(#[trigger] errors@[k], input@.len()),
        decreases input@.len() - p,
    {
        let ghost before_errors = errors@;
        let (end, node) = match document_node(input, p) {
            Ok(v) => v,
            Err(e) => {
                errors.push(e);
                proof {
                    assert forall|k: int| 0 <= k < errors@.len() implies error_within(#[trigger] errors@[k], input@.len()) by {
                        if k < before_errors.len() {
                            assert(errors@[k] == before_errors[k]);
                        }
                    }
                }
                let q = scan_till(input, p + 1, Delims::Lt);
                let range = TextRange { start: p, end: q };
                (q, HtmlNode::Plain(HtmlPlain { plain: range, range }))
            },
        };
        let ghost before = nodes@;
        nodes.push(node);
        proof {
            assert(nodes@.drop_last() == before);
            assert forall|i: int| 0 <= i < nodes@.len() - 1 implies (#[trigger] node_range(nodes@[i])).end == node_range(nodes@[i + 1]).start by {
                if i < before.len() - 1 {
                    assert(nodes@[i] == before[i] && nodes@[i + 1] == before[i + 1]);
                } else {
                    assert(nodes@[i] == before.last());
                }
            }
            assert forall|i: int| 0 <= i < nodes@.len() implies node_wf(#[trigger] nodes@[i]) && is_document_node_of(input@, nodes@[i]) by {
                if i < before.len() {
                    assert(nodes@[i] == before[i]);
                }
            }
        }
        p = end;
    }
    (nodes, errors)
}

} // verus!
