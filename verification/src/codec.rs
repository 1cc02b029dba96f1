//! The persisted text form of the drainage records: each record is a fixed
//! sequence of delimited text tokens — the cell identity, the flow target
//! identity, the river curve (a tag and six numeric fields, blank-padded
//! for the point variant), then area, drainage area and slope as decimal
//! text. Formatting and parsing are verified against each other: parsing
//! the tokens of a record gives back exactly that record.

use vstd::prelude::*;

use crate::drainage::DrainageBasinNode;
use crate::field::{CellId, COORD_LIMIT};
use crate::stream::{stream_wf, Stream};
use vstd::string::StrSliceExecFns;
use vstd::string::StringExecFns;

verus! {

/// The decimal digit character for `d`.
pub open spec fn digit_char(d: int) -> char {
    if d == 0 {
        '0'
    } else if d == 1 {
        '1'
    } else if d == 2 {
        '2'
    } else if d == 3 {
        '3'
    } else if d == 4 {
        '4'
    } else if d == 5 {
        '5'
    } else if d == 6 {
        '6'
    } else if d == 7 {
        '7'
    } else if d == 8 {
        '8'
    } else {
        '9'
    }
}

/// Whether `ch` is a decimal digit character.
pub open spec fn is_digit(ch: char) -> bool {
    ch == '0' || ch == '1' || ch == '2' || ch == '3' || ch == '4' || ch == '5' || ch == '6' || ch
        == '7' || ch == '8' || ch == '9'
}

/// The value of a decimal digit character.
pub open spec fn digit_val(ch: char) -> int {
    if ch == '0' {
        0
    } else if ch == '1' {
        1
    } else if ch == '2' {
        2
    } else if ch == '3' {
        3
    } else if ch == '4' {
        4
    } else if ch == '5' {
        5
    } else if ch == '6' {
        6
    } else if ch == '7' {
        7
    } else if ch == '8' {
        8
    } else {
        9
    }
}

/// The canonical decimal text of a natural number.
pub open spec fn dec_digits(n: nat) -> Seq<char>
    decreases n,
{
    if n < 10 {
        seq![digit_char(n as int)]
    } else {
        dec_digits(n / 10).push(digit_char((n % 10) as int))
    }
}

/// The canonical decimal text of an integer, with a sign for negatives.
pub open spec fn dec_signed(v: int) -> Seq<char> {
    if v < 0 {
        seq!['-'] + dec_digits((-v) as nat)
    } else {
        dec_digits(v as nat)
    }
}

/// Every character of `s` is a decimal digit.
pub open spec fn all_digits(s: Seq<char>) -> bool {
    forall|i: int| 0 <= i < s.len() ==> is_digit(#[trigger] s[i])
}

/// The number denoted by a sequence of digits (most significant first).
pub open spec fn digits_val(s: Seq<char>) -> int
    decreases s.len(),
{
    if s.len() == 0 {
        0
    } else {
        digits_val(s.drop_last()) * 10 + digit_val(s.last())
    }
}

/// Whether `s` is well-formed signed decimal text.
pub open spec fn signed_ok(s: Seq<char>) -> bool {
    if s.len() >= 1 && s[0] == '-' {
        s.len() >= 2 && all_digits(s.skip(1))
    } else {
        s.len() >= 1 && all_digits(s)
    }
}

/// The integer denoted by signed decimal text.
pub open spec fn signed_val(s: Seq<char>) -> int {
    if s.len() >= 1 && s[0] == '-' {
        -digits_val(s.skip(1))
    } else {
        digits_val(s)
    }
}

/// A digit character denotes the digit it was made from.
pub proof fn lemma_digit_round(d: int)
    requires
        0 <= d < 10,
    ensures
        is_digit(digit_char(d)),
        digit_val(digit_char(d)) == d,
{
}

/// The value of a digit sequence is nonnegative.
pub proof fn lemma_digits_val_nonneg(s: Seq<char>)
    ensures
        digits_val(s) >= 0,
    decreases s.len(),
{
    if s.len() > 0 {
        lemma_digits_val_nonneg(s.drop_last());
    }
}

/// Reading more digits never decreases the value.
pub proof fn lemma_digits_val_prefix_le(s: Seq<char>, k: int)
    requires
        0 <= k <= s.len(),
    ensures
        digits_val(s.subrange(0, k)) <= digits_val(s),
    decreases s.len() - k,
{
    if k < s.len() {
        lemma_digits_val_prefix_le(s, k + 1);
        let p = s.subrange(0, k + 1);
        assert(p.drop_last() =~= s.subrange(0, k));
        lemma_digits_val_nonneg(s.subrange(0, k));
    } else {
        assert(s.subrange(0, k) =~= s);
    }
}

/// Formatting then reading a natural number round-trips, and the text is
/// nonempty digits.
pub proof fn lemma_dec_round_trip(n: nat)
    ensures
        dec_digits(n).len() >= 1,
        all_digits(dec_digits(n)),
        digits_val(dec_digits(n)) == n,
    decreases n,
{
    if n < 10 {
        lemma_digit_round(n as int);
        let s = dec_digits(n);
        assert(s.drop_last() =~= Seq::<char>::empty());
        assert(s.last() == digit_char(n as int));
        assert(digits_val(Seq::<char>::empty()) == 0);
        assert(digits_val(s) == digits_val(s.drop_last()) * 10 + digit_val(s.last()));
        assert(digits_val(s) == n);
    } else {
        lemma_dec_round_trip(n / 10);
        lemma_digit_round((n % 10) as int);
        let s = dec_digits(n);
        assert(s.drop_last() =~= dec_digits(n / 10));
        assert(s.last() == digit_char((n % 10) as int));
        assert forall|i: int| 0 <= i < s.len() implies is_digit(#[trigger] s[i]) by {
            if i < s.len() - 1 {
                assert(s[i] == dec_digits(n / 10)[i]);
            }
        }
        assert(digits_val(s) == digits_val(s.drop_last()) * 10 + digit_val(s.last()));
        assert(digits_val(s.drop_last()) == n / 10);
        assert((n / 10) * 10 + (n % 10) == n);
        assert(digits_val(s) == n);
    }
}

/// Formatting then reading an integer round-trips, and the text is
/// well-formed signed decimal.
pub proof fn lemma_dec_signed_round_trip(v: int)
    ensures
        signed_ok(dec_signed(v)),
        signed_val(dec_signed(v)) == v,
{
    if v < 0 {
        lemma_dec_round_trip((-v) as nat);
        let s = dec_signed(v);
        assert(s.skip(1) =~= dec_digits((-v) as nat));
        assert(s[0] == '-');
        lemma_digits_val_nonneg(dec_digits((-v) as nat));
        assert(dec_digits((-v) as nat)[0] != '-');
    } else {
        lemma_dec_round_trip(v as nat);
        let s = dec_signed(v);
        assert(all_digits(s));
        assert(is_digit(s[0]));
        assert(s[0] != '-');
    }
}

/// The single-character text of a decimal digit.
fn digit_str(d: u64) -> (r: &'static str)
    requires
        d < 10,
    ensures
        r@ =~= seq![digit_char(d as int)],
{
    proof {
        reveal_strlit("0");
        reveal_strlit("1");
        reveal_strlit("2");
        reveal_strlit("3");
        reveal_strlit("4");
        reveal_strlit("5");
        reveal_strlit("6");
        reveal_strlit("7");
        reveal_strlit("8");
        reveal_strlit("9");
    }
    match d {
        0 => "0",
        1 => "1",
        2 => "2",
        3 => "3",
        4 => "4",
        5 => "5",
        6 => "6",
        7 => "7",
        8 => "8",
        _ => "9",
    }
}

/// Format a natural number as decimal text.
pub fn to_dec_u64(n: u64) -> (s: String)
    ensures
        s@ == dec_digits(n as nat),
    decreases n,
{
    if n < 10 {
        String::from_str(digit_str(n))
    } else {
        let s = to_dec_u64(n / 10);
        let r = s.concat(digit_str(n % 10));
        proof {
            assert(r@ =~= dec_digits((n / 10) as nat).push(digit_char((n % 10) as int)));
        }
        r
    }
}

/// Format an integer as signed decimal text.
pub fn to_dec_i64(v: i64) -> (s: String)
    ensures
        s@ == dec_signed(v as int),
{
    if v >= 0 {
        to_dec_u64(v as u64)
    } else {
        let mag: u64 = (-(v + 1)) as u64 + 1;
        proof {
            assert(mag as int == -(v as int));
            reveal_strlit("-");
        }
        let m = to_dec_u64(mag);
        let r = String::from_str("-").concat(m.as_str());
        proof {
            assert(r@ =~= seq!['-'] + dec_digits(mag as nat));
        }
        r
    }
}

/// Read a natural number from decimal text: defined exactly when the text
/// is nonempty, all digits, and the value fits a `u64`.
pub fn parse_dec_u64(s: &str) -> (r: Option<u64>)
    ensures
        (r is Some) <==> (s@.len() >= 1 && all_digits(s@) && digits_val(s@) <= u64::MAX),
        r is Some ==> r->0 as int == digits_val(s@),
{
    let len = s.unicode_len();
    if len == 0 {
        return Option::None;
    }
    let mut i: usize = 0;
    let mut val: u64 = 0;
    while i < len
        invariant
            i <= len,
            len == s@.len(),
            all_digits(s@.subrange(0, i as int)),
            val as int == digits_val(s@.subrange(0, i as int)),
        decreases len - i,
    {
        let ch = s.get_char(i);
        let d: u64 = match ch {
            '0' => 0,
            '1' => 1,
            '2' => 2,
            '3' => 3,
            '4' => 4,
            '5' => 5,
            '6' => 6,
            '7' => 7,
            '8' => 8,
            '9' => 9,
            _ => {
                proof {
                    assert(!is_digit(s@[i as int]));
                }
                return Option::None;
            },
        };
        proof {
            assert(is_digit(s@[i as int]) && digit_val(s@[i as int]) == d as int);
        }
        if val > (u64::MAX - d) / 10 {
            proof {
                let p = s@.subrange(0, i as int + 1);
                assert(p.drop_last() =~= s@.subrange(0, i as int));
                assert(digits_val(p) == val * 10 + d);
                lemma_digits_val_prefix_le(s@, i as int + 1);
                assert(digits_val(s@) > u64::MAX);
            }
            return Option::None;
        }
        val = val * 10 + d;
        proof {
            let p = s@.subrange(0, i as int + 1);
            assert(p.drop_last() =~= s@.subrange(0, i as int));
        }
        i = i + 1;
    }
    proof {
        assert(s@.subrange(0, len as int) =~= s@);
    }
    Option::Some(val)
}

/// Read an integer from signed decimal text: defined exactly when the
/// text is well-formed and the value fits an `i64`.
pub fn parse_dec_i64(s: &str) -> (r: Option<i64>)
    ensures
        (r is Some) <==> (signed_ok(s@) && i64::MIN <= signed_val(s@) <= i64::MAX),
        r is Some ==> r->0 as int == signed_val(s@),
{
    let len = s.unicode_len();
    if len >= 1 && s.get_char(0) == '-' {
        let rest = s.substring_char(1, len);
        proof {
            assert(rest@ =~= s@.skip(1));
        }
        match parse_dec_u64(rest) {
            Option::None => Option::None,
            Option::Some(mag) => {
                if mag <= 0x7FFF_FFFF_FFFF_FFFF {
                    Option::Some(-(mag as i64))
                } else if mag == 0x8000_0000_0000_0000 {
                    Option::Some(i64::MIN)
                } else {
                    Option::None
                }
            },
        }
    } else {
        match parse_dec_u64(s) {
            Option::None => Option::None,
            Option::Some(v) => {
                if v <= 0x7FFF_FFFF_FFFF_FFFF {
                    Option::Some(v as i64)
                } else {
                    Option::None
                }
            },
        }
    }
}

/// The tag token of a curve record.
pub open spec fn path_tag() -> Seq<char> {
    seq!['P', 'a', 't', 'h']
}

/// The tag token of a degenerate point record.
pub open spec fn point_tag() -> Seq<char> {
    seq!['P', 'o', 'i', 'n', 't']
}

/// The seven river-curve tokens of a stream: the tag, then six numeric
/// fields, blank-padded for the point variant.
pub open spec fn stream_tokens(s: Stream) -> Seq<Seq<char>> {
    match s {
        Stream::Path { ax2, ay2, hx2, hy2, ex2, ey2 } => seq![
            path_tag(),
            dec_signed(ax2 as int),
            dec_signed(ay2 as int),
            dec_signed(hx2 as int),
            dec_signed(hy2 as int),
            dec_signed(ex2 as int),
            dec_signed(ey2 as int),
        ],
        Stream::Point { x2, y2 } => seq![
            point_tag(),
            dec_signed(x2 as int),
            dec_signed(y2 as int),
            Seq::<char>::empty(),
            Seq::<char>::empty(),
            Seq::<char>::empty(),
            Seq::<char>::empty(),
        ],
    }
}

/// The full fourteen-token text form of a drainage record: cell identity,
/// flow-target identity, river curve, then area, drainage area and slope.
pub open spec fn rec_tokens(rec: DrainageBasinNode) -> Seq<Seq<char>> {
    seq![
        dec_signed(rec.cell.ix as int),
        dec_signed(rec.cell.iy as int),
        dec_signed(rec.flow_to.ix as int),
        dec_signed(rec.flow_to.iy as int),
    ] + stream_tokens(rec.main_river) + seq![
        dec_digits(rec.area as nat),
        dec_digits(rec.drainage_area as nat),
        dec_digits(rec.slope as nat),
    ]
}

/// Whether `t` denotes an `i64` within the doubled coordinate bound.
pub open spec fn coord_ok(t: Seq<char>) -> bool {
    signed_ok(t) && -2 * COORD_LIMIT <= signed_val(t) <= 2 * COORD_LIMIT
}

/// Whether `t` denotes an `i64`.
pub open spec fn id_ok(t: Seq<char>) -> bool {
    signed_ok(t) && i64::MIN <= signed_val(t) <= i64::MAX
}

/// Whether `t` denotes a `u64`.
pub open spec fn count_ok(t: Seq<char>) -> bool {
    t.len() >= 1 && all_digits(t) && digits_val(t) <= u64::MAX
}

/// The record denoted by fourteen tokens, if they are well-formed: the
/// exact inverse of `rec_tokens` on records whose stream is within the
/// model bounds. Malformed tokens denote nothing.
pub open spec fn parse_rec(toks: Seq<Seq<char>>) -> Option<DrainageBasinNode> {
    if toks.len() != 14 {
        Option::None
    } else if !(id_ok(toks[0]) && id_ok(toks[1]) && id_ok(toks[2]) && id_ok(toks[3]) && count_ok(
        toks[11],
    ) && count_ok(toks[12]) && count_ok(toks[13])) {
        Option::None
    } else {
        let river = parse_stream(toks.subrange(4, 11));
        if river is None {
            Option::None
        } else {
            Option::Some(
                DrainageBasinNode {
                    cell: CellId {
                        ix: signed_val(toks[0]) as i64,
                        iy: signed_val(toks[1]) as i64,
                    },
                    flow_to: CellId {
                        ix: signed_val(toks[2]) as i64,
                        iy: signed_val(toks[3]) as i64,
                    },
                    main_river: river->0,
                    area: digits_val(toks[11]) as u64,
                    drainage_area: digits_val(toks[12]) as u64,
                    slope: digits_val(toks[13]) as u64,
                },
            )
        }
    }
}

/// The stream denoted by seven curve tokens, if they are well-formed.
pub open spec fn parse_stream(toks: Seq<Seq<char>>) -> Option<Stream> {
    if toks.len() != 7 {
        Option::None
    } else if toks[0] == path_tag() {
        if coord_ok(toks[1]) && coord_ok(toks[2]) && coord_ok(toks[3]) && coord_ok(toks[4])
            && coord_ok(toks[5]) && coord_ok(toks[6]) {
            Option::Some(
                Stream::Path {
                    ax2: signed_val(toks[1]) as i64,
                    ay2: signed_val(toks[2]) as i64,
                    hx2: signed_val(toks[3]) as i64,
                    hy2: signed_val(toks[4]) as i64,
                    ex2: signed_val(toks[5]) as i64,
                    ey2: signed_val(toks[6]) as i64,
                },
            )
        } else {
            Option::None
        }
    } else if toks[0] == point_tag() {
        if coord_ok(toks[1]) && coord_ok(toks[2]) && toks[3].len() == 0 && toks[4].len() == 0
            && toks[5].len() == 0 && toks[6].len() == 0 {
            Option::Some(
                Stream::Point { x2: signed_val(toks[1]) as i64, y2: signed_val(toks[2]) as i64 },
            )
        } else {
            Option::None
        }
    } else {
        Option::None
    }
}

/// The views of a vector of text tokens.
pub open spec fn token_views(toks: Seq<String>) -> Seq<Seq<char>> {
    Seq::new(toks.len(), |i: int| toks[i]@)
}

/// The views of a vector of token vectors.
pub open spec fn line_views(tokss: Seq<Vec<String>>) -> Seq<Seq<Seq<char>>> {
    Seq::new(tokss.len(), |i: int| token_views(tokss[i]@))
}

/// The seven river-curve tokens of a stream, as text.
fn stream_to_tokens(s: &Stream) -> (toks: Vec<String>)
    ensures
        toks@.len() == 7,
        forall|i: int| 0 <= i < 7 ==> (#[trigger] toks@[i])@ == stream_tokens(*s)[i],
{
    let mut toks: Vec<String> = Vec::new();
    match s {
        Stream::Path { ax2, ay2, hx2, hy2, ex2, ey2 } => {
            proof {
                reveal_strlit("Path");
            }
            toks.push(String::from_str("Path"));
            toks.push(to_dec_i64(*ax2));
            toks.push(to_dec_i64(*ay2));
            toks.push(to_dec_i64(*hx2));
            toks.push(to_dec_i64(*hy2));
            toks.push(to_dec_i64(*ex2));
            toks.push(to_dec_i64(*ey2));
            proof {
                assert(toks@[0]@ =~= path_tag());
            }
        },
        Stream::Point { x2, y2 } => {
            proof {
                reveal_strlit("Point");
                reveal_strlit("");
            }
            toks.push(String::from_str("Point"));
            toks.push(to_dec_i64(*x2));
            toks.push(to_dec_i64(*y2));
            toks.push(String::from_str(""));
            toks.push(String::from_str(""));
            toks.push(String::from_str(""));
            toks.push(String::from_str(""));
            proof {
                assert(toks@[0]@ =~= point_tag());
                assert(toks@[3]@ =~= Seq::<char>::empty());
            }
        },
    }
    toks
}

/// Format a drainage record as its fourteen text tokens.
pub fn to_tokens(rec: &DrainageBasinNode) -> (toks: Vec<String>)
    ensures
        toks@.len() == 14,
        forall|i: int| 0 <= i < 14 ==> (#[trigger] toks@[i])@ == rec_tokens(*rec)[i],
{
    let mut toks: Vec<String> = Vec::new();
    toks.push(to_dec_i64(rec.cell.ix));
    toks.push(to_dec_i64(rec.cell.iy));
    toks.push(to_dec_i64(rec.flow_to.ix));
    toks.push(to_dec_i64(rec.flow_to.iy));
    let mut river = stream_to_tokens(&rec.main_river);
    let ghost river_snap = river@;
    toks.append(&mut river);
    toks.push(to_dec_u64(rec.area));
    toks.push(to_dec_u64(rec.drainage_area));
    toks.push(to_dec_u64(rec.slope));
    proof {
        assert forall|i: int| 0 <= i < 14 implies (#[trigger] toks@[i])@ == rec_tokens(*rec)[i] by {
            if 4 <= i < 11 {
                assert(toks@[i] == river_snap[i - 4]);
            }
        }
    }
    toks
}

/// Read a drainage record back from its fourteen text tokens: the exact
/// inverse of `to_tokens`, and a load failure on any malformed token.
pub fn from_tokens(toks: &Vec<String>) -> (r: Option<DrainageBasinNode>)
    ensures
        r == parse_rec(token_views(toks@)),
{
    let ghost views = token_views(toks@);
    if toks.len() != 14 {
        return Option::None;
    }
    let cix = parse_dec_i64(toks[0].as_str());
    let ciy = parse_dec_i64(toks[1].as_str());
    let fix = parse_dec_i64(toks[2].as_str());
    let fiy = parse_dec_i64(toks[3].as_str());
    let area = parse_dec_u64(toks[11].as_str());
    let drainage = parse_dec_u64(toks[12].as_str());
    let slope = parse_dec_u64(toks[13].as_str());
    if !(cix.is_some() && ciy.is_some() && fix.is_some() && fiy.is_some() && area.is_some()
        && drainage.is_some() && slope.is_some()) {
        return Option::None;
    }
    let river = stream_from_tokens(toks, 4);
    proof {
        assert(views.subrange(4, 11) =~= token_views(toks@).subrange(4, 11));
    }
    match river {
        Option::None => Option::None,
        Option::Some(s) => Option::Some(
            DrainageBasinNode {
                cell: CellId { ix: cix.unwrap(), iy: ciy.unwrap() },
                flow_to: CellId { ix: fix.unwrap(), iy: fiy.unwrap() },
                main_river: s,
                area: area.unwrap(),
                drainage_area: drainage.unwrap(),
                slope: slope.unwrap(),
            },
        ),
    }
}

/// Read the seven river-curve tokens starting at `at`.
fn stream_from_tokens(toks: &Vec<String>, at: usize) -> (r: Option<Stream>)
    requires
        at + 7 <= toks@.len(),
    ensures
        r == parse_stream(token_views(toks@).subrange(at as int, at as int + 7)),
{
    let ghost sub = token_views(toks@).subrange(at as int, at as int + 7);
    let total = toks.len();
    proof {
        assert(at + 7 <= total);
        reveal_strlit("Path");
        reveal_strlit("Point");
    }
    let path_tag_s = String::from_str("Path");
    let point_tag_s = String::from_str("Point");
    proof {
        assert(path_tag_s@ =~= path_tag());
        assert(point_tag_s@ =~= point_tag());
    }
    let lim: i64 = 2 * COORD_LIMIT;
    if toks[at] == path_tag_s {
        let a = parse_dec_i64(toks[at + 1].as_str());
        let b = parse_dec_i64(toks[at + 2].as_str());
        let c = parse_dec_i64(toks[at + 3].as_str());
        let d = parse_dec_i64(toks[at + 4].as_str());
        let e = parse_dec_i64(toks[at + 5].as_str());
        let f = parse_dec_i64(toks[at + 6].as_str());
        match (a, b, c, d, e, f) {
            (
                Option::Some(a),
                Option::Some(b),
                Option::Some(c),
                Option::Some(d),
                Option::Some(e),
                Option::Some(f),
            ) => {
                if -lim <= a && a <= lim && -lim <= b && b <= lim && -lim <= c && c <= lim && -lim
                    <= d && d <= lim && -lim <= e && e <= lim && -lim <= f && f <= lim {
                    Option::Some(Stream::Path { ax2: a, ay2: b, hx2: c, hy2: d, ex2: e, ey2: f })
                } else {
                    Option::None
                }
            },
            _ => Option::None,
        }
    } else if toks[at] == point_tag_s {
        let a = parse_dec_i64(toks[at + 1].as_str());
        let b = parse_dec_i64(toks[at + 2].as_str());
        let empty = toks[at + 3].as_str().unicode_len() == 0 && toks[at + 4].as_str().unicode_len()
            == 0 && toks[at + 5].as_str().unicode_len() == 0 && toks[at
            + 6].as_str().unicode_len() == 0;
        match (a, b) {
            (Option::Some(a), Option::Some(b)) => {
                if empty && -lim <= a && a <= lim && -lim <= b && b <= lim {
                    Option::Some(Stream::Point { x2: a, y2: b })
                } else {
                    Option::None
                }
            },
            _ => Option::None,
        }
    } else {
        Option::None
    }
}

/// Reading back the tokens of a record gives exactly that record, for any
/// record whose stream is within the model bounds.
pub proof fn lemma_record_round_trip(rec: DrainageBasinNode)
    requires
        stream_wf(rec.main_river),
    ensures
        parse_rec(rec_tokens(rec)) == Some(rec),
{
    let toks = rec_tokens(rec);
    lemma_dec_signed_round_trip(rec.cell.ix as int);
    lemma_dec_signed_round_trip(rec.cell.iy as int);
    lemma_dec_signed_round_trip(rec.flow_to.ix as int);
    lemma_dec_signed_round_trip(rec.flow_to.iy as int);
    lemma_dec_round_trip(rec.area as nat);
    lemma_dec_round_trip(rec.drainage_area as nat);
    lemma_dec_round_trip(rec.slope as nat);
    let stoks = toks.subrange(4, 11);
    assert(stoks =~= stream_tokens(rec.main_river));
    match rec.main_river {
        Stream::Path { ax2, ay2, hx2, hy2, ex2, ey2 } => {
            lemma_dec_signed_round_trip(ax2 as int);
            lemma_dec_signed_round_trip(ay2 as int);
            lemma_dec_signed_round_trip(hx2 as int);
            lemma_dec_signed_round_trip(hy2 as int);
            lemma_dec_signed_round_trip(ex2 as int);
            lemma_dec_signed_round_trip(ey2 as int);
            assert(stoks[0] == path_tag());
        },
        Stream::Point { x2, y2 } => {
            lemma_dec_signed_round_trip(x2 as int);
            lemma_dec_signed_round_trip(y2 as int);
            assert(stoks[0] == point_tag());
            assert(stoks[0] != path_tag()) by {
                assert(point_tag().len() != path_tag().len());
            }
        },
    }
}

/// The records denoted by a sequence of token lines: all of them, or a
/// load failure if any line is malformed.
pub open spec fn parse_records(lines: Seq<Seq<Seq<char>>>) -> Option<Seq<DrainageBasinNode>>
    decreases lines.len(),
{
    if lines.len() == 0 {
        Option::Some(Seq::empty())
    } else {
        let prev = parse_records(lines.drop_last());
        let last = parse_rec(lines.last());
        if prev is Some && last is Some {
            Option::Some(prev->0.push(last->0))
        } else {
            Option::None
        }
    }
}

/// Round trip: reading back the token lines of any sequence of records
/// reproduces exactly those records, cells and field values alike.
pub proof fn lemma_records_round_trip(records: Seq<DrainageBasinNode>)
    requires
        forall|i: int| 0 <= i < records.len() ==> stream_wf((#[trigger] records[i]).main_river),
    ensures
        parse_records(records.map_values(|r: DrainageBasinNode| rec_tokens(r))) == Option::Some(
            records,
        ),
    decreases records.len(),
{
    let lines = records.map_values(|r: DrainageBasinNode| rec_tokens(r));
    if records.len() == 0 {
        assert(lines.len() == 0);
    } else {
        lemma_records_round_trip(records.drop_last());
        assert(lines.drop_last() =~= records.drop_last().map_values(
            |r: DrainageBasinNode| rec_tokens(r),
        ));
        lemma_record_round_trip(records.last());
        assert(lines.last() == rec_tokens(records.last()));
        assert(records.drop_last().push(records.last()) =~= records);
    }
}

impl crate::drainage::DrainageMap {
    /// The persisted text form of the map: the fourteen tokens of every
    /// record, in map order. The width factors are not persisted and must
    /// be supplied again on load.
    pub fn save_tokens(&self) -> (out: Vec<Vec<String>>)
        ensures
            line_views(out@) == self.records@.map_values(|r: DrainageBasinNode| rec_tokens(r)),
    {
        let n = self.records.len();
        let mut out: Vec<Vec<String>> = Vec::new();
        let mut i: usize = 0;
        while i < n
            invariant
                n == self.records@.len(),
                i <= n,
                out@.len() == i,
                forall|k: int|
                    0 <= k < i ==> token_views((#[trigger] out@[k])@) == rec_tokens(
                        self.records@[k],
                    ),
            decreases n - i,
        {
            let toks = to_tokens(&self.records[i]);
            proof {
                assert(token_views(toks@) =~= rec_tokens(self.records@[i as int]));
            }
            out.push(toks);
            i = i + 1;
        }
        proof {
            assert(line_views(out@) =~= self.records@.map_values(
                |r: DrainageBasinNode| rec_tokens(r),
            ));
        }
        out
    }

    /// Load a drainage map from persisted token lines, supplying the two
    /// width factors and the cell scale anew. Fails exactly when some
    /// line's tokens are malformed.
    pub fn load_tokens(
        lines: &Vec<Vec<String>>,
        river_strength: u64,
        river_ignoreable_width_strength: u64,
        scale: u64,
    ) -> (r: Option<crate::drainage::DrainageMap>)
        requires
            river_strength <= crate::field::SCALE_LIMIT,
            river_ignoreable_width_strength <= crate::field::SCALE_LIMIT,
            scale <= crate::field::SCALE_LIMIT,
        ensures
            (r is Some) <==> (parse_records(line_views(lines@)) is Some),
            (r matches Option::Some(m) ==> {
                &&& Option::Some(m.records@) == parse_records(line_views(lines@))
                &&& m.river_strength == river_strength
                &&& m.river_ignoreable_width_strength == river_ignoreable_width_strength
                &&& m.scale == scale
                &&& m.wf()
            }),
    {
        let n = lines.len();
        let mut records: Vec<DrainageBasinNode> = Vec::new();
        let mut i: usize = 0;
        while i < n
            invariant
                n == lines@.len(),
                i <= n,
                Option::Some(records@) == parse_records(line_views(lines@).subrange(0, i as int)),
                forall|k: int|
                    0 <= k < records@.len() ==> stream_wf((#[trigger] records@[k]).main_river),
            decreases n - i,
        {
            let rec = from_tokens(&lines[i]);
            proof {
                let pre = line_views(lines@).subrange(0, i as int + 1);
                assert(pre.drop_last() =~= line_views(lines@).subrange(0, i as int));
                assert(pre.last() == token_views(lines@[i as int]@));
            }
            match rec {
                Option::None => {
                    proof {
                        lemma_parse_records_prefix_fail(line_views(lines@), i as int);
                    }
                    return Option::None;
                },
                Option::Some(rec) => {
                    records.push(rec);
                },
            }
            i = i + 1;
        }
        proof {
            assert(line_views(lines@).subrange(0, n as int) =~= line_views(lines@));
        }
        Option::Some(
            crate::drainage::DrainageMap {
                records,
                river_strength,
                river_ignoreable_width_strength,
                scale,
            },
        )
    }
}

/// A malformed line anywhere makes the whole sequence malformed.
proof fn lemma_parse_records_prefix_fail(lines: Seq<Seq<Seq<char>>>, i: int)
    requires
        0 <= i < lines.len(),
        parse_rec(lines[i]) is None,
    ensures
        parse_records(lines) is None,
    decreases lines.len(),
{
    if lines.len() > 0 {
        if i == lines.len() - 1 {
        } else {
            lemma_parse_records_prefix_fail(lines.drop_last(), i);
        }
    }
}

} // verus!
