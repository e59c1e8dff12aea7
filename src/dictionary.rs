use vstd::prelude::*;
use crate::feedback::{letters, WORD_LEN};
use vstd::string::StrSliceExecFns;

verus! {

/// Whether every character of `s` is an ASCII decimal digit.
pub open spec fn all_digits(s: Seq<char>) -> bool {
    forall|i: int| 0 <= i < s.len() ==> '0' <= #[trigger] s[i] <= '9'
}

/// The number that the decimal digits `s` spell, most significant first.
pub open spec fn digits_value(s: Seq<char>) -> nat
    decreases s.len(),
{
    if s.len() == 0 {
        0
    } else {
        digits_value(s.drop_last()) * 10 + ((s.last() as u32) - ('0' as u32)) as nat
    }
}

/// Whether `s` is a well-formed frequency: one or more decimal digits whose value fits `u64`.
pub open spec fn is_count(s: Seq<char>) -> bool {
    s.len() > 0 && all_digits(s) && digits_value(s) <= u64::MAX
}

/// Splits `s` around its first space; `None` where it has none.
fn split_at_first_space(s: &str) -> (r: Option<(&str, &str)>)
    ensures
        r matches Some(p) ==> s@ == p.0@ + seq![' '] + p.1@ && !p.0@.contains(' '),
        r is None ==> !s@.contains(' '),
{
    let cs = letters(s);
    let mut k: usize = 0;
    while k < cs.len() && cs[k] != ' '
        invariant
            cs@ == s@,
            k <= cs@.len(),
            forall|j: int| 0 <= j < k ==> cs@[j] != ' ',
        decreases cs@.len() - k,
    {
        k = k + 1;
    }
    if k == cs.len() {
        return None;
    }
    let before = s.substring_char(0, k);
    let after = s.substring_char(k + 1, cs.len());
    proof {
        assert(s@ =~= before@ + seq![' '] + after@);
        assert(!before@.contains(' ')) by {
            if before@.contains(' ') {
                let j = choose|j: int| 0 <= j < before@.len() && before@[j] == ' ';
                assert(cs@[j] == ' ');
            }
        }
    }
    Some((before, after))
}

/// Reads a frequency written in decimal digits.
pub fn parse_count(s: &str) -> (r: Option<u64>)
    ensures
        r is Some <==> is_count(s@),
        r matches Some(v) ==> v == digits_value(s@),
{
    let cs = letters(s);
    if cs.len() == 0 {
        return None;
    }
    let mut value: u64 = 0;
    let mut i: usize = 0;
    while i < cs.len()
        invariant
            cs@ == s@,
            i <= cs@.len(),
            all_digits(cs@.take(i as int)),
            value == digits_value(cs@.take(i as int)),
        decreases cs@.len() - i,
    {
        let c = cs[i];
        proof {
            assert(cs@.take(i + 1).drop_last() =~= cs@.take(i as int));
        }
        if c < '0' || c > '9' {
            proof {
                assert(!all_digits(s@));
            }
            return None;
        }
        let d = (c as u32 - '0' as u32) as u64;
        match value.checked_mul(10) {
            Some(m) => match m.checked_add(d) {
                Some(v) => {
                    value = v;
                },
                None => {
                    proof {
                        if all_digits(s@) {
                            digits_prefix_bound(s@, i + 1);
                        }
                    }
                    return None;
                },
            },
            None => {
                proof {
                    if all_digits(s@) {
                        digits_prefix_bound(s@, i + 1);
                    }
                }
                return None;
            },
        }
        i = i + 1;
    }
    proof {
        assert(cs@.take(i as int) =~= cs@);
    }
    Some(value)
}

/// The value of a run of digits is at least the value of any prefix of it.
proof fn digits_prefix_bound(s: Seq<char>, j: int)
    requires
        0 <= j <= s.len(),
        all_digits(s),
    ensures
        digits_value(s.take(j)) <= digits_value(s),
    decreases s.len(),
{
    if j < s.len() {
        assert(s.drop_last().take(j) =~= s.take(j));
        digits_prefix_bound(s.drop_last(), j);
    } else {
        assert(s.take(j) =~= s);
    }
}

/// Whether `line` is a dictionary entry `<word> <frequency>`: a word of the fixed length, one
/// space, and a frequency.
pub open spec fn is_entry(line: Seq<char>) -> bool {
    exists|k: int|
        0 <= k < line.len() && line[k] == ' ' && k == WORD_LEN && (forall|j: int|
            0 <= j < k ==> #[trigger] line[j] != ' ') && is_count(line.subrange(k + 1, line.len() as int))
}

/// Reads one dictionary line `<word> <frequency>`; `None` where the line is malformed.
pub fn parse_entry(line: &str) -> (r: Option<(String, u64)>)
    ensures
        r is Some <==> is_entry(line@),
        r matches Some(e) ==> e.0@ == line@.subrange(0, WORD_LEN as int) && e.1
            == digits_value(line@.subrange(WORD_LEN as int + 1, line@.len() as int)),
{
    match split_at_first_space(line) {
        None => {
            proof {
                if is_entry(line@) {
                    let k = choose|k: int|
                        0 <= k < line@.len() && line@[k] == ' ' && k == WORD_LEN && (forall|j: int|
                            0 <= j < k ==> #[trigger] line@[j] != ' ') && is_count(
                            line@.subrange(k + 1, line@.len() as int),
                        );
                    assert(line@.contains(' '));
                }
            }
            None
        },
        Some((word, count)) => {
            let ghost k = word@.len() as int;
            proof {
                assert(line@[k] == ' ');
                assert(word@ =~= line@.subrange(0, k));
                assert(count@ =~= line@.subrange(k + 1, line@.len() as int));
                assert forall|j: int| 0 <= j < k implies #[trigger] line@[j] != ' ' by {
                    assert(line@[j] == word@[j]);
                }
                if is_entry(line@) {
                    let k2 = choose|k2: int|
                        0 <= k2 < line@.len() && line@[k2] == ' ' && k2 == WORD_LEN && (forall|j: int|
                            0 <= j < k2 ==> #[trigger] line@[j] != ' ') && is_count(
                            line@.subrange(k2 + 1, line@.len() as int),
                        );
                    assert(k2 == k) by {
                        if k2 < k {
                            assert(word@[k2] == ' ');
                        }
                    }
                }
            }
            if word.unicode_len() != WORD_LEN {
                return None;
            }
            match parse_count(count) {
                None => None,
                Some(n) => Some((word.to_owned(), n)),
            }
        },
    }
}

} // verus!
