//! The compact source-location encoding `start:length:index`: a byte offset,
//! an optional byte count, and an optional source-file index. A negative
//! second or third field on the wire stands for absence and is written back
//! as `-1`.

use crate::dec::all_digits;
use crate::dec::canonical_dec;
use crate::dec::dec_of;
use crate::dec::dec_val;
use crate::dec::is_digit;
use crate::dec::lemma_dec_of_digits;
use crate::dec::lemma_dec_of_of_val;
use crate::dec::lemma_dec_val_singleton;
use crate::dec::parse_dec_range;
use crate::dec::push_dec;
use crate::error::AstError;
use crate::error::AstErrorV;
use vstd::prelude::*;
use vstd::string::StrSliceExecFns;
use vstd::string::StringExecFns;

verus! {

/// A half-open byte range within one source file of a compilation unit.
/// `length` or `index` is `None` where the wire form carries a negative
/// sentinel.
#[derive(Debug, Clone, Copy, PartialEq, Eq)]
pub struct SourceLocation {
    pub start: usize,
    pub length: Option<usize>,
    pub index: Option<usize>,
}

/// The least position at or after `from` holding `':'`, or the length of `s`
/// if there is none.
pub open spec fn find_colon(s: Seq<char>, from: int) -> int
    decreases s.len() - from,
{
    if from < 0 || from >= s.len() {
        s.len() as int
    } else if s[from] == ':' {
        from
    } else {
        find_colon(s, from + 1)
    }
}

/// `find_colon` returns exactly the position with no colon before it.
pub proof fn lemma_find_colon_at(s: Seq<char>, from: int, q: int)
    requires
        0 <= from <= q <= s.len(),
        forall|k: int| from <= k < q ==> s[k] != ':',
        q == s.len() || s[q] == ':',
    ensures
        find_colon(s, from) == q,
    decreases q - from,
{
    if from < q {
        lemma_find_colon_at(s, from + 1, q);
    }
}

/// The value of an optionally `+`-signed digit string.
pub open spec fn parse_unsigned(seg: Seq<char>) -> Option<nat> {
    let digits = if seg.len() > 0 && seg[0] == '+' {
        seg.drop_first()
    } else {
        seg
    };
    if digits.len() > 0 && all_digits(digits) {
        Some(dec_val(digits))
    } else {
        None
    }
}

/// The value of an optionally signed digit string.
pub open spec fn parse_signed(seg: Seq<char>) -> Option<int> {
    if seg.len() > 0 && seg[0] == '-' {
        let digits = seg.drop_first();
        if digits.len() > 0 && all_digits(digits) {
            Some(-(dec_val(digits) as int))
        } else {
            None
        }
    } else {
        match parse_unsigned(seg) {
            Some(n) => Some(n as int),
            None => None,
        }
    }
}

/// What a location string means: exactly three colon-separated fields, the
/// first a non-negative integer no larger than `usize::MAX`, the second and
/// third signed integers within the `isize` range, negatives standing for
/// absence.
pub open spec fn parse_loc(s: Seq<char>) -> Option<SourceLocation> {
    let p1 = find_colon(s, 0);
    let p2 = find_colon(s, p1 + 1);
    let p3 = find_colon(s, p2 + 1);
    if p1 == s.len() || p2 == s.len() || p3 != s.len() {
        None
    } else {
        let a = s.subrange(0, p1);
        let b = s.subrange(p1 + 1, p2);
        let c = s.subrange(p2 + 1, s.len() as int);
        match (parse_unsigned(a), parse_signed(b), parse_signed(c)) {
            (Some(st), Some(ln), Some(ix)) => if st <= usize::MAX as nat && isize::MIN as int <= ln
                <= isize::MAX as int && isize::MIN as int <= ix <= isize::MAX as int {
                Some(
                    SourceLocation {
                        start: st as usize,
                        length: if ln < 0 {
                            None
                        } else {
                            Some(ln as usize)
                        },
                        index: if ix < 0 {
                            None
                        } else {
                            Some(ix as usize)
                        },
                    },
                )
            } else {
                None
            },
            _ => None,
        }
    }
}

/// The wire text of one optional field: its decimal digits, or `-1`.
pub open spec fn fmt_opt(o: Option<usize>) -> Seq<char> {
    match o {
        Some(n) => dec_of(n as nat),
        None => seq!['-', '1'],
    }
}

/// The wire text of a location: the three fields joined with `':'`.
pub open spec fn fmt_loc(loc: SourceLocation) -> Seq<char> {
    dec_of(loc.start as nat) + seq![':'] + fmt_opt(loc.length) + seq![':'] + fmt_opt(loc.index)
}

impl SourceLocation {
    /// Parse the `start:length:index` form. Fails with `MalformedLocation`,
    /// carrying the whole input, exactly on the strings `parse_loc` rejects.
    pub fn from_str(s: &str) -> (r: Result<SourceLocation, AstError>)
        ensures
            match r {
                Ok(loc) => parse_loc(s@) == Some(loc),
                Err(e) => parse_loc(s@) is None && (e@ matches AstErrorV::MalformedLocation(t)
                    && t == s@),
            },
    {
        let n = s.unicode_len();
        let p1 = find_colon_exec(s, 0);
        if p1 == n {
            return Err(AstError::MalformedLocation(s.to_owned()));
        }
        let p2 = find_colon_exec(s, p1 + 1);
        if p2 == n {
            return Err(AstError::MalformedLocation(s.to_owned()));
        }
        let p3 = find_colon_exec(s, p2 + 1);
        if p3 != n {
            return Err(AstError::MalformedLocation(s.to_owned()));
        }
        let start = match parse_unsigned_exec(s, 0, p1) {
            Some(v) => v,
            None => {
                return Err(AstError::MalformedLocation(s.to_owned()));
            },
        };
        let length = match parse_signed_exec(s, p1 + 1, p2) {
            Some(v) => v,
            None => {
                return Err(AstError::MalformedLocation(s.to_owned()));
            },
        };
        let index = match parse_signed_exec(s, p2 + 1, n) {
            Some(v) => v,
            None => {
                return Err(AstError::MalformedLocation(s.to_owned()));
            },
        };
        Ok(SourceLocation { start, length, index })
    }

    /// Write the location back in its wire form.
    pub fn format(&self) -> (r: String)
        ensures
            r@ == fmt_loc(*self),
    {
        let mut out = String::new();
        push_dec(&mut out, self.start);
        out.append(":");
        match self.length {
            Some(v) => push_dec(&mut out, v),
            None => out.append("-1"),
        }
        out.append(":");
        match self.index {
            Some(v) => push_dec(&mut out, v),
            None => out.append("-1"),
        }
        proof {
            reveal_strlit(":");
            reveal_strlit("-1");
            assert(seq![':'] =~= ":"@);
            assert(seq!['-', '1'] =~= "-1"@);
            assert(out@ =~= fmt_loc(*self));
        }
        out
    }
}

/// What `find_colon` returns: a position between `from` and the end, holding
/// `':'` unless it is the end, with no `':'` before it.
pub proof fn lemma_find_colon_props(s: Seq<char>, from: int)
    requires
        0 <= from <= s.len(),
    ensures
        from <= find_colon(s, from) <= s.len(),
        find_colon(s, from) < s.len() ==> s[find_colon(s, from)] == ':',
        forall|k: int| from <= k < find_colon(s, from) ==> s[k] != ':',
    decreases s.len() - from,
{
    if from < s.len() && s[from] != ':' {
        lemma_find_colon_props(s, from + 1);
    }
}

/// One optional wire field in canonical form: the canonical digits of a value
/// in range, or exactly `-1`.
pub open spec fn canon_opt_seg(seg: Seq<char>) -> bool {
    (canonical_dec(seg) && dec_val(seg) <= isize::MAX as nat) || seg == seq!['-', '1']
}

/// A location string in canonical form: three colon-separated fields, each
/// the canonical text of its value.
pub open spec fn wire_canonical(s: Seq<char>) -> bool {
    let p1 = find_colon(s, 0);
    let p2 = find_colon(s, p1 + 1);
    let p3 = find_colon(s, p2 + 1);
    &&& p1 < s.len()
    &&& p2 < s.len()
    &&& p3 == s.len()
    &&& canonical_dec(s.subrange(0, p1))
    &&& dec_val(s.subrange(0, p1)) <= usize::MAX as nat
    &&& canon_opt_seg(s.subrange(p1 + 1, p2))
    &&& canon_opt_seg(s.subrange(p2 + 1, s.len() as int))
}

/// Formatting a location and parsing the text gives the location back, for
/// every location whose optional fields fit the signed wire range.
pub proof fn lemma_loc_round_trip(loc: SourceLocation)
    requires
        loc.length matches Some(n) ==> n <= isize::MAX as usize,
        loc.index matches Some(n) ==> n <= isize::MAX as usize,
    ensures
        parse_loc(fmt_loc(loc)) == Some(loc),
{
    let a = dec_of(loc.start as nat);
    let b = fmt_opt(loc.length);
    let c = fmt_opt(loc.index);
    let s = fmt_loc(loc);
    lemma_dec_of_digits(loc.start as nat);
    lemma_fmt_opt_shape(loc.length);
    lemma_fmt_opt_shape(loc.index);
    assert(s =~= a + seq![':'] + b + seq![':'] + c);
    let p1 = a.len() as int;
    let p2: int = a.len() as int + 1 + b.len() as int;
    assert forall|k: int| 0 <= k < p1 implies s[k] != ':' by {
        assert(s[k] == a[k]);
    }
    assert(s[p1] == ':');
    lemma_find_colon_at(s, 0, p1);
    assert forall|k: int| p1 + 1 <= k < p2 implies s[k] != ':' by {
        assert(s[k] == b[k - (p1 + 1)]);
    }
    assert(s[p2 as int] == ':');
    lemma_find_colon_at(s, p1 + 1, p2 as int);
    assert forall|k: int| p2 + 1 <= k < s.len() implies s[k] != ':' by {
        assert(s[k] == c[k - (p2 + 1)]);
    }
    lemma_find_colon_at(s, p2 + 1, s.len() as int);
    assert(s.subrange(0, p1) =~= a);
    assert(s.subrange(p1 + 1, p2 as int) =~= b);
    assert(s.subrange(p2 + 1, s.len() as int) =~= c);
    assert(parse_unsigned(a) == Some(loc.start as nat));
    lemma_parse_opt_seg(loc.length);
    lemma_parse_opt_seg(loc.index);
}

/// The text of an optional field is nonempty, free of `':'`, `'+'` and a
/// leading `'-'` only for the `-1` sentinel.
proof fn lemma_fmt_opt_shape(o: Option<usize>)
    ensures
        fmt_opt(o).len() > 0,
        forall|k: int| 0 <= k < fmt_opt(o).len() ==> fmt_opt(o)[k] != ':',
{
    match o {
        Some(n) => {
            lemma_dec_of_digits(n as nat);
        },
        None => {
            assert(fmt_opt(o) == seq!['-', '1']);
            assert(fmt_opt(o)[0] == '-' && fmt_opt(o)[1] == '1');
        },
    }
}

/// Parsing the text of an optional field gives the field back.
proof fn lemma_parse_opt_seg(o: Option<usize>)
    requires
        o matches Some(n) ==> n <= isize::MAX as usize,
    ensures
        parse_signed(fmt_opt(o)) matches Some(x) && isize::MIN as int <= x <= isize::MAX as int
            && o == (if x < 0 {
            None::<usize>
        } else {
            Some(x as usize)
        }),
{
    match o {
        Some(n) => {
            lemma_dec_of_digits(n as nat);
            let b = dec_of(n as nat);
            assert(b[0] != '-' && b[0] != '+');
            assert(parse_signed(b) == Some(n as int));
        },
        None => {
            let b = seq!['-', '1'];
            assert(b[0] == '-');
            let d = b.drop_first();
            assert(d =~= seq!['1']);
            lemma_dec_val_singleton(d);
            assert(all_digits(d));
            assert(parse_signed(b) == Some(-1int));
        },
    }
}

/// Parsing a canonical wire string and formatting the result gives the same
/// string back.
pub proof fn lemma_wire_round_trip(s: Seq<char>)
    requires
        wire_canonical(s),
    ensures
        parse_loc(s) matches Some(loc) && fmt_loc(loc) == s,
{
    let p1 = find_colon(s, 0);
    let p2 = find_colon(s, p1 + 1);
    lemma_find_colon_props(s, 0);
    lemma_find_colon_props(s, p1 + 1);
    lemma_find_colon_props(s, p2 + 1);
    let a = s.subrange(0, p1);
    let b = s.subrange(p1 + 1, p2);
    let c = s.subrange(p2 + 1, s.len() as int);
    assert(a[0] != '+' && a[0] != '-');
    assert(parse_unsigned(a) == Some(dec_val(a)));
    lemma_canon_opt_round(b);
    lemma_canon_opt_round(c);
    let loc = parse_loc(s)->Some_0;
    lemma_dec_of_of_val(a);
    assert(fmt_loc(loc) =~= s);
}

/// A canonical optional field parses within range and formats back to
/// itself.
proof fn lemma_canon_opt_round(seg: Seq<char>)
    requires
        canon_opt_seg(seg),
    ensures
        parse_signed(seg) matches Some(x) && isize::MIN as int <= x <= isize::MAX as int
            && fmt_opt(
            if x < 0 {
                None::<usize>
            } else {
                Some(x as usize)
            },
        ) == seg,
{
    if canonical_dec(seg) && dec_val(seg) <= isize::MAX as nat {
        assert(seg[0] != '-' && seg[0] != '+');
        assert(parse_signed(seg) == Some(dec_val(seg) as int));
        lemma_dec_of_of_val(seg);
    } else {
        assert(seg == seq!['-', '1']);
        assert(seg[0] == '-');
        let d = seg.drop_first();
        assert(d =~= seq!['1']);
        lemma_dec_val_singleton(d);
        assert(all_digits(d));
        assert(parse_signed(seg) == Some(-1int));
    }
}

/// Find the first `':'` at or after `from`.
fn find_colon_exec(s: &str, from: usize) -> (p: usize)
    requires
        from <= s@.len(),
    ensures
        from <= p <= s@.len(),
        p == find_colon(s@, from as int),
        p < s@.len() ==> s@[p as int] == ':',
{
    let n = s.unicode_len();
    let mut i = from;
    while i < n
        invariant
            from <= i <= n == s@.len(),
            forall|k: int| from <= k < i ==> s@[k] != ':',
        decreases n - i,
    {
        let c = s.get_char(i);
        let hit = match c {
            ':' => true,
            _ => false,
        };
        if hit {
            proof {
                lemma_find_colon_at(s@, from as int, i as int);
            }
            return i;
        }
        i = i + 1;
    }
    proof {
        lemma_find_colon_at(s@, from as int, n as int);
    }
    n
}

/// Parse `s[from..to]` as an optionally `+`-signed decimal that fits in
/// `usize`.
fn parse_unsigned_exec(s: &str, from: usize, to: usize) -> (r: Option<usize>)
    requires
        from <= to <= s@.len(),
    ensures
        ({
            let seg = s@.subrange(from as int, to as int);
            match r {
                Some(v) => parse_unsigned(seg) == Some(v as nat),
                None => parse_unsigned(seg) is None || parse_unsigned(seg)->Some_0 > usize::MAX
                    as nat,
            }
        }),
{
    let ghost seg = s@.subrange(from as int, to as int);
    let plus = from < to && matches!(s.get_char(from), '+');
    let lo = if plus {
        from + 1
    } else {
        from
    };
    proof {
        if plus {
            assert(seg.len() > 0 && seg[0] == '+');
            assert(seg.drop_first() =~= s@.subrange(lo as int, to as int));
        } else if seg.len() > 0 {
            assert(seg[0] == s@[from as int]);
        }
    }
    parse_dec_range(s, lo, to)
}

/// Parse `s[from..to]` as an optionally signed decimal within the `isize`
/// range. The outer `None` is failure; the inner `None` is a negative value,
/// which stands for absence.
fn parse_signed_exec(s: &str, from: usize, to: usize) -> (r: Option<Option<usize>>)
    requires
        from <= to <= s@.len(),
    ensures
        ({
            let seg = s@.subrange(from as int, to as int);
            match r {
                Some(v) => parse_signed(seg) matches Some(x) && isize::MIN as int <= x
                    <= isize::MAX as int && v == (if x < 0 {
                    None::<usize>
                } else {
                    Some(x as usize)
                }),
                None => parse_signed(seg) is None || !(isize::MIN as int <= parse_signed(
                    seg,
                )->Some_0 <= isize::MAX as int),
            }
        }),
{
    let ghost seg = s@.subrange(from as int, to as int);
    let minus = from < to && matches!(s.get_char(from), '-');
    if minus {
        proof {
            assert(seg.len() > 0 && seg[0] == '-');
            assert(seg.drop_first() =~= s@.subrange(from + 1 as int, to as int));
        }
        match parse_dec_range(s, from + 1, to) {
            Some(m) => {
                if m == 0 {
                    Some(Some(0))
                } else if m - 1 <= isize::MAX as usize {
                    proof {
                        assert(-(m as int) >= isize::MIN as int);
                    }
                    Some(None)
                } else {
                    proof {
                        assert(-(m as int) < isize::MIN as int);
                    }
                    None
                }
            },
            None => {
                proof {
                    if seg.drop_first().len() > 0 && all_digits(seg.drop_first()) {
                        assert(dec_val(seg.drop_first()) > usize::MAX as nat);
                        assert(usize::MAX as nat >= isize::MAX as nat + 1);
                        assert(-(dec_val(seg.drop_first()) as int) < isize::MIN as int);
                    }
                }
                None
            },
        }
    } else {
        proof {
            if seg.len() > 0 {
                assert(seg[0] == s@[from as int]);
            }
        }
        match parse_unsigned_exec(s, from, to) {
            Some(v) => {
                if v <= isize::MAX as usize {
                    Some(Some(v))
                } else {
                    None
                }
            },
            None => {
                proof {
                    if parse_unsigned(seg) is Some {
                        assert(parse_unsigned(seg)->Some_0 > usize::MAX as nat);
                        assert(parse_unsigned(seg)->Some_0 > isize::MAX as nat);
                    }
                }
                None
            },
        }
    }
}

} // verus!
