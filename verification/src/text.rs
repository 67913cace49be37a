//! Byte-string utilities: separator splitting, whitespace tokenisation and
//! decimal integer parsing, each verified against a direct mathematical
//! definition over `Seq<u8>`.

use vstd::prelude::*;

verus! {

/// Byte value of `\n`.
pub const NEWLINE: u8 = 10;

/// Byte value of `\r`.
pub const CARRIAGE_RETURN: u8 = 13;

/// Byte value of `,`.
pub const COMMA: u8 = 44;

/// The ASCII whitespace bytes: space, tab, line feed, vertical tab, form
/// feed, carriage return.
pub open spec fn is_ascii_space(b: u8) -> bool {
    b == 32 || b == 9 || b == 10 || b == 11 || b == 12 || b == 13
}

/// The ASCII decimal digits.
pub open spec fn is_ascii_digit(b: u8) -> bool {
    48 <= b && b <= 57
}

/// The pieces of `s` between occurrences of `sep`, in order; there is always
/// at least one piece, and splitting an empty sequence gives one empty piece.
pub open spec fn split_bytes(s: Seq<u8>, sep: u8) -> Seq<Seq<u8>>
    decreases s.len(),
{
    if s.len() == 0 {
        seq![Seq::<u8>::empty()]
    } else if s[0] == sep {
        seq![Seq::<u8>::empty()] + split_bytes(s.skip(1), sep)
    } else {
        let rest = split_bytes(s.skip(1), sep);
        seq![seq![s[0]] + rest[0]] + rest.skip(1)
    }
}

pub proof fn lemma_split_bytes_nonempty(s: Seq<u8>, sep: u8)
    ensures
        split_bytes(s, sep).len() >= 1,
    decreases s.len(),
{
    if s.len() > 0 {
        lemma_split_bytes_nonempty(s.skip(1), sep);
    }
}

/// The views of a sequence of byte vectors.
pub open spec fn views_of(vs: Seq<Vec<u8>>) -> Seq<Seq<u8>> {
    vs.map_values(|v: Vec<u8>| v@)
}

/// Splits `s` at every occurrence of `sep`.
pub fn split(s: &[u8], sep: u8) -> (r: Vec<Vec<u8>>)
    ensures
        views_of(r@) == split_bytes(s@, sep),
        r@.len() >= 1,
{
    let mut r: Vec<Vec<u8>> = Vec::new();
    r.push(Vec::new());
    let mut i: usize = s.len();
    proof {
        assert(s@.skip(i as int) =~= Seq::<u8>::empty());
        assert(views_of(r@) =~= split_bytes(s@.skip(i as int), sep));
    }
    while i > 0
        invariant
            i <= s@.len(),
            r@.len() >= 1,
            views_of(r@) == split_bytes(s@.skip(i as int), sep),
        decreases i,
    {
        i = i - 1;
        let ghost prev = views_of(r@);
        let b = s[i];
        proof {
            assert(s@.skip(i as int)[0] == s@[i as int]);
            assert(s@.skip(i as int).skip(1) =~= s@.skip(i as int + 1));
        }
        if b == sep {
            r.insert(0, Vec::new());
            proof {
                assert(views_of(r@) =~~= seq![Seq::<u8>::empty()] + prev);
            }
        } else {
            let mut first = r.remove(0);
            first.insert(0, b);
            r.insert(0, first);
            proof {
                assert(views_of(r@) =~~= seq![seq![s@[i as int]] + prev[0]] + prev.skip(1));
            }
        }
    }
    proof {
        assert(s@.skip(0) =~= s@);
    }
    r
}

/// `l` with one trailing carriage return removed, the way line splitting
/// treats a CRLF ending.
pub open spec fn strip_cr(l: Seq<u8>) -> Seq<u8> {
    if l.len() > 0 && l.last() == CARRIAGE_RETURN {
        l.drop_last()
    } else {
        l
    }
}

/// The lines of `s`: the pieces between `\n` bytes, each with a trailing
/// `\r` removed.
pub open spec fn spec_lines(s: Seq<u8>) -> Seq<Seq<u8>> {
    split_bytes(s, NEWLINE).map_values(|l: Seq<u8>| strip_cr(l))
}

/// Splits `s` into lines.
pub fn split_lines(s: &[u8]) -> (r: Vec<Vec<u8>>)
    ensures
        views_of(r@) == spec_lines(s@),
        r@.len() >= 1,
{
    let pieces = split(s, NEWLINE);
    let mut r: Vec<Vec<u8>> = Vec::new();
    let mut i: usize = 0;
    while i < pieces.len()
        invariant
            i <= pieces@.len(),
            views_of(pieces@) == split_bytes(s@, NEWLINE),
            r@.len() == i as int,
            forall|j: int| 0 <= j < i ==> #[trigger] r@[j]@ == strip_cr(
                split_bytes(s@, NEWLINE)[j],
            ),
        decreases pieces@.len() - i,
    {
        proof {
            assert(views_of(pieces@)[i as int] == pieces@[i as int]@);
        }
        let mut line = vstd::slice::slice_to_vec(pieces[i].as_slice());
        let n = line.len();
        if n > 0 && line[n - 1] == CARRIAGE_RETURN {
            line.pop();
            proof {
                assert(line@ =~= strip_cr(split_bytes(s@, NEWLINE)[i as int]));
            }
        }
        r.push(line);
        i = i + 1;
    }
    proof {
        lemma_split_bytes_nonempty(s@, NEWLINE);
        assert(views_of(r@) =~= spec_lines(s@));
    }
    r
}

/// Index of the last non-whitespace byte of `s`, or -1 if there is none.
pub open spec fn last_nonspace(s: Seq<u8>) -> int
    decreases s.len(),
{
    if s.len() == 0 {
        -1
    } else if !is_ascii_space(s.last()) {
        s.len() - 1
    } else {
        last_nonspace(s.drop_last())
    }
}

/// Start of the run of non-whitespace bytes that ends right before `e`.
pub open spec fn run_start(s: Seq<u8>, e: int) -> int
    decreases e,
{
    if e <= 0 {
        0
    } else if is_ascii_space(s[e - 1]) {
        e
    } else {
        run_start(s, e - 1)
    }
}

/// The last whitespace-separated token of `s`, if `s` has one: the maximal
/// run of non-whitespace bytes that contains the last non-whitespace byte.
pub open spec fn last_token(s: Seq<u8>) -> Option<Seq<u8>> {
    if last_nonspace(s) >= 0 {
        Some(s.subrange(run_start(s, last_nonspace(s) + 1), last_nonspace(s) + 1))
    } else {
        None
    }
}

/// Whether the byte before position `e` of `line` is ASCII whitespace.
fn space_before(line: &[u8], e: usize) -> (r: bool)
    requires
        1 <= e <= line@.len(),
    ensures
        r == is_ascii_space(line@[e - 1]),
{
    let b = line[e - 1];
    b == 32 || b == 9 || b == 10 || b == 11 || b == 12 || b == 13
}

/// The last whitespace-separated token of `line`, if `line` has one.
pub fn line_last_token(line: &[u8]) -> (r: Option<Vec<u8>>)
    ensures
        match r {
            Some(t) => last_token(line@) == Some(t@),
            None => last_token(line@) is None,
        },
{
    let mut e: usize = line.len();
    proof {
        assert(line@.subrange(0, e as int) =~= line@);
    }
    while e > 0 && space_before(line, e)
        invariant
            e <= line@.len(),
            last_nonspace(line@) == last_nonspace(line@.subrange(0, e as int)),
        decreases e,
    {
        e = e - 1;
        proof {
            let t = line@.subrange(0, e as int + 1);
            assert(t.last() == line@[e as int]);
            assert(t.drop_last() =~= line@.subrange(0, e as int));
        }
    }
    if e == 0 {
        proof {
            assert(line@.subrange(0, 0) =~= Seq::<u8>::empty());
        }
        return None;
    }
    proof {
        let t = line@.subrange(0, e as int);
        assert(t.last() == line@[e as int - 1]);
        assert(last_nonspace(line@) == e - 1);
    }
    let mut a: usize = e;
    while a > 0 && !space_before(line, a)
        invariant
            a <= e <= line@.len(),
            run_start(line@, e as int) == run_start(line@, a as int),
        decreases a,
    {
        a = a - 1;
    }
    let token = vstd::slice::slice_to_vec(vstd::slice::slice_subrange(line, a, e));
    Some(token)
}

/// The value of a sequence of ASCII digits, most significant first.
pub open spec fn digits_value(s: Seq<u8>) -> int
    decreases s.len(),
{
    if s.len() == 0 {
        0
    } else {
        digits_value(s.drop_last()) * 10 + (s.last() - 48)
    }
}

/// Whether `s` consists of ASCII digits only.
pub open spec fn all_digits(s: Seq<u8>) -> bool {
    forall|i: int| 0 <= i < s.len() ==> is_ascii_digit(#[trigger] s[i])
}

/// The value a decimal integer literal with an optional sign denotes, if `s`
/// is one and the value fits in a 32-bit signed integer.
pub open spec fn parse_i32_spec(s: Seq<u8>) -> Option<int> {
    let digits = if s.len() > 0 && (s[0] == 43 || s[0] == 45) {
        s.skip(1)
    } else {
        s
    };
    let negative = s.len() > 0 && s[0] == 45;
    if digits.len() > 0 && all_digits(digits) {
        let v = if negative {
            -digits_value(digits)
        } else {
            digits_value(digits)
        };
        if -2147483648 <= v && v <= 2147483647 {
            Some(v)
        } else {
            None
        }
    } else {
        None
    }
}

pub proof fn lemma_digits_value_nonneg(s: Seq<u8>)
    requires
        all_digits(s),
    ensures
        digits_value(s) >= 0,
    decreases s.len(),
{
    if s.len() > 0 {
        assert(all_digits(s.drop_last()));
        lemma_digits_value_nonneg(s.drop_last());
    }
}

/// Reading further digits can only keep or grow the denoted value.
pub proof fn lemma_digits_value_prefix_le(s: Seq<u8>, i: int)
    requires
        0 <= i <= s.len(),
        all_digits(s),
    ensures
        digits_value(s.subrange(0, i)) <= digits_value(s),
    decreases s.len() - i,
{
    if i == s.len() {
        assert(s.subrange(0, i) =~= s);
    } else {
        lemma_digits_value_prefix_le(s, i + 1);
        let t = s.subrange(0, i + 1);
        assert(t.drop_last() =~= s.subrange(0, i));
        assert(all_digits(s.subrange(0, i)));
        lemma_digits_value_nonneg(s.subrange(0, i));
    }
}

/// Parses `s` as a decimal 32-bit signed integer, exactly as the
/// mathematical definition `parse_i32_spec` has it: an optional `+` or `-`
/// sign, then one or more digits, rejected on any other byte or on a value
/// out of range.
pub fn parse_i32(s: &[u8]) -> (r: Option<i32>)
    ensures
        match r {
            Some(v) => parse_i32_spec(s@) == Some(v as int),
            None => parse_i32_spec(s@) is None,
        },
{
    let mut start: usize = 0;
    let mut negative = false;
    if s.len() > 0 && (s[0] == 43 || s[0] == 45) {
        negative = s[0] == 45;
        start = 1;
    }
    let ghost digits = s@.skip(start as int);
    proof {
        assert(digits =~= if s@.len() > 0 && (s@[0] == 43 || s@[0] == 45) {
            s@.skip(1)
        } else {
            s@
        });
    }
    if start >= s.len() {
        return None;
    }
    let mut acc: u64 = 0;
    let mut i: usize = start;
    proof {
        assert(s@.subrange(start as int, i as int) =~= Seq::<u8>::empty());
    }
    while i < s.len()
        invariant
            start <= i <= s@.len(),
            start < s@.len(),
            digits == s@.skip(start as int),
            digits == (if s@.len() > 0 && (s@[0] == 43 || s@[0] == 45) {
                s@.skip(1)
            } else {
                s@
            }),
            negative == (s@.len() > 0 && s@[0] == 45),
            acc <= 2147483648,
            acc == digits_value(s@.subrange(start as int, i as int)),
            all_digits(s@.subrange(start as int, i as int)),
        decreases s@.len() - i,
    {
        let b = s[i];
        if b < 48 || b > 57 {
            proof {
                assert(digits[i - start as int] == s@[i as int]);
                assert(!all_digits(digits));
            }
            return None;
        }
        let d = (b - 48) as u64;
        let new_acc = acc * 10 + d;
        let ghost upto = s@.subrange(start as int, i as int + 1);
        proof {
            assert(upto.drop_last() =~= s@.subrange(start as int, i as int));
            assert(upto.last() == s@[i as int]);
            assert(digits_value(upto) == new_acc);
            assert(all_digits(upto));
        }
        if new_acc > 2147483648 {
            proof {
                if all_digits(digits) {
                    assert(upto =~= digits.subrange(0, i - start as int + 1));
                    lemma_digits_value_prefix_le(digits, i - start as int + 1);
                    assert(digits_value(digits) > 2147483648);
                }
            }
            return None;
        }
        acc = new_acc;
        i = i + 1;
    }
    proof {
        assert(s@.subrange(start as int, i as int) =~= digits);
    }
    if negative {
        if acc == 2147483648 {
            Some(i32::MIN)
        } else {
            Some(-(acc as i32))
        }
    } else {
        if acc <= 2147483647 {
            Some(acc as i32)
        } else {
            None
        }
    }
}

} // verus!
