use vstd::prelude::*;
use crate::cpu::{OpCode, VmError};
use vstd::string::StrSliceExecFns;

verus! {

/// An ASCII whitespace character, as stripped from the ends of a source line
/// or of an operand token.
pub open spec fn is_space(c: char) -> bool {
    c == ' ' || c == '\t' || c == '\n' || c == '\r' || c as u32 == 11 || c as u32 == 12
}

/// The pieces of `s` between occurrences of `sep`, in order. There is always
/// at least one piece; a separator at either end or two in a row contribute
/// empty pieces, exactly as a textual split does.
pub open spec fn split_on(s: Seq<char>, sep: char) -> Seq<Seq<char>>
    decreases s.len(),
{
    if s.len() == 0 {
        seq![Seq::<char>::empty()]
    } else if s[0] == sep {
        seq![Seq::<char>::empty()] + split_on(s.drop_first(), sep)
    } else {
        let rest = split_on(s.drop_first(), sep);
        seq![seq![s[0]] + rest[0]] + rest.drop_first()
    }
}

/// A split yields at least one piece.
pub proof fn lemma_split_on_len(s: Seq<char>, sep: char)
    ensures
        split_on(s, sep).len() >= 1,
    decreases s.len(),
{
    if s.len() == 0 {
    } else {
        lemma_split_on_len(s.drop_first(), sep);
    }
}

/// A text without the separator splits into the single piece that is the
/// text itself.
pub proof fn lemma_split_on_no_sep(s: Seq<char>, sep: char)
    requires
        forall|i: int| 0 <= i < s.len() ==> s[i] != sep,
    ensures
        split_on(s, sep) == seq![s],
    decreases s.len(),
{
    if s.len() == 0 {
        assert(s =~= Seq::<char>::empty());
    } else {
        lemma_split_on_no_sep(s.drop_first(), sep);
        assert(seq![s[0]] + s.drop_first() =~= s);
        assert(seq![s.drop_first()].drop_first() =~= Seq::<Seq<char>>::empty());
        assert(split_on(s, sep) =~= seq![s]);
    }
}

/// Splitting at the first separator: the piece before it, then the split of
/// what follows it.
pub proof fn lemma_split_on_first_sep(s: Seq<char>, sep: char, k: int)
    requires
        0 <= k < s.len(),
        s[k] == sep,
        forall|i: int| 0 <= i < k ==> s[i] != sep,
    ensures
        split_on(s, sep) == seq![s.subrange(0, k)] + split_on(
            s.subrange(k + 1, s.len() as int),
            sep,
        ),
    decreases k,
{
    if k == 0 {
        assert(s.subrange(0, 0) =~= Seq::<char>::empty());
        assert(s.drop_first() =~= s.subrange(1, s.len() as int));
        assert(split_on(s, sep) =~= seq![s.subrange(0, 0)] + split_on(
            s.subrange(1, s.len() as int),
            sep,
        ));
    } else {
        lemma_split_on_first_sep(s.drop_first(), sep, k - 1);
        assert(s.drop_first().subrange(0, k - 1) =~= s.subrange(1, k));
        assert(s.drop_first().subrange(k, s.drop_first().len() as int) =~= s.subrange(
            k + 1,
            s.len() as int,
        ));
        let tail_split = split_on(s.subrange(k + 1, s.len() as int), sep);
        assert(split_on(s.drop_first(), sep) == seq![s.subrange(1, k)] + tail_split);
        assert((seq![s.subrange(1, k)] + tail_split)[0] == s.subrange(1, k));
        assert(seq![s[0]] + s.subrange(1, k) =~= s.subrange(0, k));
        assert((seq![s.subrange(1, k)] + tail_split).drop_first() =~= tail_split);
        assert(split_on(s, sep) =~= seq![s.subrange(0, k)] + tail_split);
    }
}

/// `s` without its leading whitespace.
pub open spec fn trim_start(s: Seq<char>) -> Seq<char>
    decreases s.len(),
{
    if s.len() > 0 && is_space(s[0]) {
        trim_start(s.drop_first())
    } else {
        s
    }
}

/// `s` without its trailing whitespace.
pub open spec fn trim_end(s: Seq<char>) -> Seq<char>
    decreases s.len(),
{
    if s.len() > 0 && is_space(s.last()) {
        trim_end(s.drop_last())
    } else {
        s
    }
}

/// `s` without leading or trailing whitespace.
pub open spec fn trim(s: Seq<char>) -> Seq<char> {
    trim_end(trim_start(s))
}

/// A decimal digit.
pub open spec fn is_digit(c: char) -> bool {
    48 <= c as u32 && c as u32 <= 57
}

/// Every character of `s` is a decimal digit.
pub open spec fn all_digits(s: Seq<char>) -> bool {
    forall|i: int| 0 <= i < s.len() ==> is_digit(s[i])
}

/// The value of `s` read as a decimal numeral, most significant digit
/// first. Meaningful only when every character is a digit.
pub open spec fn dec_val(s: Seq<char>) -> int
    decreases s.len(),
{
    if s.len() == 0 {
        0
    } else {
        dec_val(s.drop_last()) * 10 + (s.last() as u32 - 48)
    }
}

/// A numeral of digits has a non-negative value.
pub proof fn lemma_dec_val_nonneg(s: Seq<char>)
    requires
        all_digits(s),
    ensures
        dec_val(s) >= 0,
    decreases s.len(),
{
    if s.len() > 0 {
        lemma_dec_val_nonneg(s.drop_last());
    }
}

/// Extending a numeral of digits to the right never shrinks its value, so a
/// prefix already above a bound puts the whole numeral above it.
pub proof fn lemma_dec_val_prefix(s: Seq<char>, k: int)
    requires
        all_digits(s),
        0 <= k <= s.len(),
    ensures
        dec_val(s.subrange(0, k)) <= dec_val(s),
    decreases s.len() - k,
{
    if k == s.len() {
        assert(s.subrange(0, k) =~= s);
    } else {
        assert(s.subrange(0, k + 1).drop_last() =~= s.subrange(0, k));
        assert(s.subrange(0, k + 1).last() == s[k]);
        lemma_dec_val_nonneg(s.subrange(0, k));
        assert(dec_val(s.subrange(0, k)) <= dec_val(s.subrange(0, k + 1)));
        lemma_dec_val_prefix(s, k + 1);
    }
}

/// The byte a token denotes: a non-empty run of decimal digits whose value
/// is at most 255; anything else is no byte.
pub open spec fn parse_byte(s: Seq<char>) -> Option<u8> {
    if s.len() > 0 && all_digits(s) && dec_val(s) <= 255 {
        Some(dec_val(s) as u8)
    } else {
        None
    }
}

/// An operand token is trimmed of surrounding whitespace before it is read
/// as a byte.
pub open spec fn parse_operand(tok: Seq<char>) -> Option<u8> {
    parse_byte(trim(tok))
}

/// The instruction a mnemonic token denotes, given the two already-parsed
/// operands. Unary instructions take only the first operand and `HLT` takes
/// none; mnemonics are case-sensitive.
pub open spec fn opcode_of(m: Seq<char>, a: u8, b: u8) -> Result<OpCode, VmError> {
    if m == seq!['A', 'D', 'D'] {
        Ok(OpCode::ADD(a, b))
    } else if m == seq!['S', 'U', 'B'] {
        Ok(OpCode::SUB(a, b))
    } else if m == seq!['L', 'D'] {
        Ok(OpCode::LD(a, b))
    } else if m == seq!['L', 'D', 'A'] {
        Ok(OpCode::LDA(a, b))
    } else if m == seq!['A', 'N', 'D'] {
        Ok(OpCode::AND(a, b))
    } else if m == seq!['O', 'R'] {
        Ok(OpCode::OR(a, b))
    } else if m == seq!['X', 'O', 'R'] {
        Ok(OpCode::XOR(a, b))
    } else if m == seq!['O', 'U', 'T'] {
        Ok(OpCode::OUT(a))
    } else if m == seq!['N', 'O', 'T'] {
        Ok(OpCode::NOT(a))
    } else if m == seq!['H', 'L', 'T'] {
        Ok(OpCode::HLT)
    } else {
        Err(VmError::InvalidMnemonic)
    }
}

/// The instruction one non-blank source line denotes. The line is trimmed
/// and cut at single spaces; the first token is the mnemonic, the second and
/// third are operands that default to 0 when absent; later tokens are
/// ignored. Operand tokens are read before the mnemonic is examined, so a
/// bad operand is reported even beside an unknown mnemonic.
pub open spec fn parse_line_spec(line: Seq<char>) -> Result<OpCode, VmError> {
    let toks = split_on(trim(line), ' ');
    let v1 = if toks.len() > 1 {
        parse_operand(toks[1])
    } else {
        Some(0u8)
    };
    let v2 = if toks.len() > 2 {
        parse_operand(toks[2])
    } else {
        Some(0u8)
    };
    match (v1, v2) {
        (Some(a), Some(b)) => opcode_of(toks[0], a, b),
        _ => Err(VmError::InvalidOperand),
    }
}

/// The instructions a sequence of source lines denotes, in line order, with
/// blank lines dropped so that they never occupy a memory address. The first
/// bad line's error is the result.
pub open spec fn parse_lines_spec(lines: Seq<Seq<char>>) -> Result<Seq<OpCode>, VmError>
    decreases lines.len(),
{
    if lines.len() == 0 {
        Ok(Seq::<OpCode>::empty())
    } else if lines[0].len() == 0 {
        parse_lines_spec(lines.drop_first())
    } else {
        match parse_line_spec(lines[0]) {
            Err(e) => Err(e),
            Ok(op) => match parse_lines_spec(lines.drop_first()) {
                Err(e) => Err(e),
                Ok(rest) => Ok(seq![op] + rest),
            },
        }
    }
}

/// The instructions a whole source text denotes: its lines, split at
/// newlines, parsed in order.
pub open spec fn parse_program_spec(s: Seq<char>) -> Result<Seq<OpCode>, VmError> {
    parse_lines_spec(split_on(s, '\n'))
}

/// `lines` with its blank lines removed, order kept.
pub open spec fn strip_blanks(lines: Seq<Seq<char>>) -> Seq<Seq<char>>
    decreases lines.len(),
{
    if lines.len() == 0 {
        Seq::<Seq<char>>::empty()
    } else if lines[0].len() == 0 {
        strip_blanks(lines.drop_first())
    } else {
        seq![lines[0]] + strip_blanks(lines.drop_first())
    }
}

fn is_space_char(c: char) -> (r: bool)
    ensures
        r == is_space(c),
{
    c == ' ' || c == '\t' || c == '\n' || c == '\r' || c as u32 == 11 || c as u32 == 12
}

/// The position of the first `sep` in `s` at or after `from` and before
/// `to`, or `to` when there is none.
fn find_char(s: &str, from: usize, to: usize, sep: char) -> (k: usize)
    requires
        from <= to <= s@.len(),
    ensures
        from <= k <= to,
        forall|i: int| from <= i < k ==> s@[i] != sep,
        k < to ==> s@[k as int] == sep,
{
    let mut k = from;
    while k < to
        invariant
            from <= k <= to <= s@.len(),
            forall|i: int| from <= i < k ==> s@[i] != sep,
        decreases to - k,
    {
        if s.get_char(k) == sep {
            return k;
        }
        k = k + 1;
    }
    k
}

/// Narrows the range `[lo, hi)` of `s` to the subrange left once the
/// surrounding whitespace is stripped.
fn trim_range(s: &str, lo: usize, hi: usize) -> (r: (usize, usize))
    requires
        lo <= hi <= s@.len(),
    ensures
        lo <= r.0 <= r.1 <= hi,
        s@.subrange(r.0 as int, r.1 as int) == trim(s@.subrange(lo as int, hi as int)),
{
    let mut a = lo;
    while a < hi && is_space_char(s.get_char(a))
        invariant
            lo <= a <= hi <= s@.len(),
            trim_start(s@.subrange(lo as int, hi as int)) == trim_start(
                s@.subrange(a as int, hi as int),
            ),
        decreases hi - a,
    {
        proof {
            assert(s@.subrange(a as int, hi as int).drop_first() =~= s@.subrange(
                a + 1,
                hi as int,
            ));
        }
        a = a + 1;
    }
    proof {
        assert(trim_start(s@.subrange(lo as int, hi as int)) == s@.subrange(a as int, hi as int));
    }
    let mut b = hi;
    while b > a && is_space_char(s.get_char(b - 1))
        invariant
            a <= b <= hi <= s@.len(),
            trim_end(s@.subrange(a as int, hi as int)) == trim_end(s@.subrange(a as int, b as int)),
        decreases b - a,
    {
        proof {
            assert(s@.subrange(a as int, b as int).drop_last() =~= s@.subrange(a as int, b - 1));
        }
        b = b - 1;
    }
    proof {
        assert(trim_end(s@.subrange(a as int, b as int)) == s@.subrange(a as int, b as int));
    }
    (a, b)
}

/// Reads the range `[lo, hi)` of `s` as a decimal byte.
fn parse_byte_range(s: &str, lo: usize, hi: usize) -> (r: Option<u8>)
    requires
        lo <= hi <= s@.len(),
    ensures
        r == parse_byte(s@.subrange(lo as int, hi as int)),
{
    let ghost whole = s@.subrange(lo as int, hi as int);
    if lo == hi {
        return None;
    }
    let mut acc: u32 = 0;
    let mut i = lo;
    while i < hi
        invariant
            lo <= i <= hi <= s@.len(),
            whole == s@.subrange(lo as int, hi as int),
            lo < hi,
            forall|j: int| lo <= j < i ==> is_digit(s@[j]),
            acc == dec_val(s@.subrange(lo as int, i as int)),
            acc <= 255,
        decreases hi - i,
    {
        let c = s.get_char(i);
        let u = c as u32;
        if u < 48 || u > 57 {
            proof {
                assert(whole[i - lo] == s@[i as int]);
                assert(!all_digits(whole));
            }
            return None;
        }
        proof {
            assert(s@.subrange(lo as int, i + 1).drop_last() =~= s@.subrange(lo as int, i as int));
            assert(s@.subrange(lo as int, i + 1).last() == s@[i as int]);
        }
        let next = acc * 10 + (u - 48);
        if next > 255 {
            proof {
                assert(dec_val(s@.subrange(lo as int, i + 1)) == next);
                if all_digits(whole) {
                    assert(whole.subrange(0, i + 1 - lo) =~= s@.subrange(lo as int, i + 1));
                    lemma_dec_val_prefix(whole, i + 1 - lo);
                    assert(dec_val(whole) > 255);
                }
            }
            return None;
        }
        acc = next;
        i = i + 1;
    }
    proof {
        assert(whole =~= s@.subrange(lo as int, i as int));
        assert(forall|j: int| 0 <= j < whole.len() ==> whole[j] == s@[lo + j]);
        assert(all_digits(whole));
    }
    Some(acc as u8)
}

/// Decodes the mnemonic in the range `[lo, hi)` of `s`, with the two parsed
/// operands, into its instruction.
fn decode_mnemonic(s: &str, lo: usize, hi: usize, a: u8, b: u8) -> (r: Result<OpCode, VmError>)
    requires
        lo <= hi <= s@.len(),
    ensures
        r == opcode_of(s@.subrange(lo as int, hi as int), a, b),
{
    let ghost m = s@.subrange(lo as int, hi as int);
    let n = hi - lo;
    if n == 2 {
        let c0 = s.get_char(lo);
        let c1 = s.get_char(lo + 1);
        if c0 == 'L' && c1 == 'D' {
            proof {
                assert(m =~= seq!['L', 'D']);
            }
            Ok(OpCode::LD(a, b))
        } else if c0 == 'O' && c1 == 'R' {
            proof {
                assert(m =~= seq!['O', 'R']);
            }
            Ok(OpCode::OR(a, b))
        } else {
            proof {
                assert(m.len() == 2);
                assert(m[0] == s@[lo as int]);
                assert(m[1] == s@[lo + 1]);
            }
            Err(VmError::InvalidMnemonic)
        }
    } else if n == 3 {
        let c0 = s.get_char(lo);
        let c1 = s.get_char(lo + 1);
        let c2 = s.get_char(lo + 2);
        if c0 == 'A' && c1 == 'D' && c2 == 'D' {
            proof {
                assert(m =~= seq!['A', 'D', 'D']);
            }
            Ok(OpCode::ADD(a, b))
        } else if c0 == 'S' && c1 == 'U' && c2 == 'B' {
            proof {
                assert(m =~= seq!['S', 'U', 'B']);
            }
            Ok(OpCode::SUB(a, b))
        } else if c0 == 'L' && c1 == 'D' && c2 == 'A' {
            proof {
                assert(m =~= seq!['L', 'D', 'A']);
            }
            Ok(OpCode::LDA(a, b))
        } else if c0 == 'A' && c1 == 'N' && c2 == 'D' {
            proof {
                assert(m =~= seq!['A', 'N', 'D']);
            }
            Ok(OpCode::AND(a, b))
        } else if c0 == 'X' && c1 == 'O' && c2 == 'R' {
            proof {
                assert(m =~= seq!['X', 'O', 'R']);
            }
            Ok(OpCode::XOR(a, b))
        } else if c0 == 'O' && c1 == 'U' && c2 == 'T' {
            proof {
                assert(m =~= seq!['O', 'U', 'T']);
            }
            Ok(OpCode::OUT(a))
        } else if c0 == 'N' && c1 == 'O' && c2 == 'T' {
            proof {
                assert(m =~= seq!['N', 'O', 'T']);
            }
            Ok(OpCode::NOT(a))
        } else if c0 == 'H' && c1 == 'L' && c2 == 'T' {
            proof {
                assert(m =~= seq!['H', 'L', 'T']);
            }
            Ok(OpCode::HLT)
        } else {
            proof {
                assert(m.len() == 3);
                assert(m[0] == s@[lo as int]);
                assert(m[1] == s@[lo + 1]);
                assert(m[2] == s@[lo + 2]);
            }
            Err(VmError::InvalidMnemonic)
        }
    } else {
        proof {
            assert(m.len() == n);
        }
        Err(VmError::InvalidMnemonic)
    }
}

/// Parses the source line held in the range `[lo, hi)` of `s`.
fn parse_line_range(s: &str, lo: usize, hi: usize) -> (r: Result<OpCode, VmError>)
    requires
        lo <= hi <= s@.len(),
    ensures
        r == parse_line_spec(s@.subrange(lo as int, hi as int)),
{
    let (tlo, thi) = trim_range(s, lo, hi);
    let ghost tline = s@.subrange(tlo as int, thi as int);
    let ghost toks = split_on(tline, ' ');
    proof {
        assert(forall|i: int| 0 <= i < tline.len() ==> tline[i] == s@[tlo + i]);
    }
    let t1 = find_char(s, tlo, thi, ' ');
    if t1 == thi {
        proof {
            lemma_split_on_no_sep(tline, ' ');
            assert(toks[0] == tline);
        }
        return decode_mnemonic(s, tlo, thi, 0, 0);
    }
    proof {
        lemma_split_on_first_sep(tline, ' ', t1 - tlo);
        lemma_split_on_len(s@.subrange(t1 + 1, thi as int), ' ');
        assert(tline.subrange(0, t1 - tlo) =~= s@.subrange(tlo as int, t1 as int));
        assert(tline.subrange(t1 - tlo + 1, tline.len() as int) =~= s@.subrange(
            t1 + 1,
            thi as int,
        ));
        assert(toks == seq![s@.subrange(tlo as int, t1 as int)] + split_on(
            s@.subrange(t1 + 1, thi as int),
            ' ',
        ));
        assert(toks[0] == s@.subrange(tlo as int, t1 as int));
        assert(toks.len() >= 2);
        assert(toks[1] == split_on(s@.subrange(t1 + 1, thi as int), ' ')[0]);
    }
    let t2 = find_char(s, t1 + 1, thi, ' ');
    let ghost tail1 = s@.subrange(t1 + 1, thi as int);
    proof {
        assert(forall|i: int| 0 <= i < tail1.len() ==> tail1[i] == s@[t1 + 1 + i]);
        if t2 < thi {
            lemma_split_on_first_sep(tail1, ' ', t2 - (t1 + 1));
            lemma_split_on_len(s@.subrange(t2 + 1, thi as int), ' ');
            assert(tail1.subrange(0, t2 - (t1 + 1)) =~= s@.subrange(t1 + 1, t2 as int));
            assert(tail1.subrange(t2 - (t1 + 1) + 1, tail1.len() as int) =~= s@.subrange(
                t2 + 1,
                thi as int,
            ));
            assert(toks[1] == s@.subrange(t1 + 1, t2 as int));
            assert(toks.len() >= 3);
            assert(toks[2] == split_on(s@.subrange(t2 + 1, thi as int), ' ')[0]);
        } else {
            lemma_split_on_no_sep(tail1, ' ');
            assert(toks[1] == s@.subrange(t1 + 1, t2 as int));
            assert(toks.len() == 2);
        }
    }
    let (alo, ahi) = trim_range(s, t1 + 1, t2);
    let first_operand = match parse_byte_range(s, alo, ahi) {
        Some(v) => v,
        None => {
            return Err(VmError::InvalidOperand);
        },
    };
    if t2 == thi {
        return decode_mnemonic(s, tlo, t1, first_operand, 0);
    }
    let t3 = find_char(s, t2 + 1, thi, ' ');
    let ghost tail2 = s@.subrange(t2 + 1, thi as int);
    proof {
        assert(forall|i: int| 0 <= i < tail2.len() ==> tail2[i] == s@[t2 + 1 + i]);
        if t3 < thi {
            lemma_split_on_first_sep(tail2, ' ', t3 - (t2 + 1));
            assert(tail2.subrange(0, t3 - (t2 + 1)) =~= s@.subrange(t2 + 1, t3 as int));
        } else {
            lemma_split_on_no_sep(tail2, ' ');
            assert(tail2 =~= s@.subrange(t2 + 1, t3 as int));
        }
        assert(toks[2] == s@.subrange(t2 + 1, t3 as int));
    }
    let (blo, bhi) = trim_range(s, t2 + 1, t3);
    let second_operand = match parse_byte_range(s, blo, bhi) {
        Some(v) => v,
        None => {
            return Err(VmError::InvalidOperand);
        },
    };
    decode_mnemonic(s, tlo, t1, first_operand, second_operand)
}

/// `r` with the already-parsed instructions `ops` in front of it, when it is
/// no error.
spec fn prepend_parsed(ops: Seq<OpCode>, r: Result<Seq<OpCode>, VmError>) -> Result<
    Seq<OpCode>,
    VmError,
> {
    match r {
        Ok(rest) => Ok(ops + rest),
        Err(e) => Err(e),
    }
}

/// Parses a whole source text into its instruction sequence: one
/// instruction per non-blank line, in source order, or the first bad line's
/// error with nothing kept.
pub fn parse_program(source: &str) -> (r: Result<Vec<OpCode>, VmError>)
    ensures
        (match parse_program_spec(source@) {
            Ok(ops) => r matches Ok(v) && v@ == ops,
            Err(e) => r == Err::<Vec<OpCode>, VmError>(e),
        }),
{
    let n = source.unicode_len();
    let mut ops: Vec<OpCode> = Vec::new();
    let mut pos: usize = 0;
    let mut finished = false;
    proof {
        assert(source@.subrange(0, n as int) =~= source@);
        match parse_lines_spec(split_on(source@, '\n')) {
            Ok(rest) => {
                assert(Seq::<OpCode>::empty() + rest =~= rest);
            },
            Err(_) => {},
        }
    }
    while !finished
        invariant
            n == source@.len(),
            pos <= n,
            !finished ==> parse_program_spec(source@) == prepend_parsed(
                ops@,
                parse_lines_spec(split_on(source@.subrange(pos as int, n as int), '\n')),
            ),
            finished ==> parse_program_spec(source@) == Ok::<Seq<OpCode>, VmError>(ops@),
        decreases n - pos + (if finished {
            0int
        } else {
            1int
        }),
    {
        let k = find_char(source, pos, n, '\n');
        let ghost suffix = source@.subrange(pos as int, n as int);
        let ghost line = source@.subrange(pos as int, k as int);
        let ghost lines = split_on(suffix, '\n');
        proof {
            assert(forall|i: int| 0 <= i < suffix.len() ==> suffix[i] == source@[pos + i]);
            if k < n {
                lemma_split_on_first_sep(suffix, '\n', k - pos);
                assert(suffix.subrange(0, k - pos) =~= line);
                assert(suffix.subrange(k - pos + 1, suffix.len() as int) =~= source@.subrange(
                    k + 1,
                    n as int,
                ));
                assert(lines == seq![line] + split_on(source@.subrange(k + 1, n as int), '\n'));
                assert(lines.drop_first() =~= split_on(source@.subrange(k + 1, n as int), '\n'));
            } else {
                lemma_split_on_no_sep(suffix, '\n');
                assert(suffix =~= line);
                assert(lines == seq![line]);
                assert(lines.drop_first() =~= Seq::<Seq<char>>::empty());
            }
            assert(lines[0] == line);
            assert(parse_lines_spec(Seq::<Seq<char>>::empty()) == Ok::<Seq<OpCode>, VmError>(
                Seq::<OpCode>::empty(),
            ));
        }
        if pos < k {
            let parsed = match parse_line_range(source, pos, k) {
                Ok(op) => op,
                Err(e) => {
                    proof {
                        assert(parse_lines_spec(lines) == Err::<Seq<OpCode>, VmError>(e));
                    }
                    return Err(e);
                },
            };
            proof {
                let rest_lines = lines.drop_first();
                match parse_lines_spec(rest_lines) {
                    Ok(rest) => {
                        assert(parse_lines_spec(lines) == Ok::<Seq<OpCode>, VmError>(
                            seq![parsed] + rest,
                        ));
                        assert(ops@ + (seq![parsed] + rest) =~= ops@.push(parsed) + rest);
                    },
                    Err(_) => {},
                }
            }
            ops.push(parsed);
        }
        if k < n {
            pos = k + 1;
        } else {
            proof {
                assert(ops@ + Seq::<OpCode>::empty() =~= ops@);
            }
            finished = true;
        }
    }
    Ok(ops)
}

} // verus!
