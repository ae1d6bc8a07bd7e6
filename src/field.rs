use vstd::prelude::*;
use vstd::string::*;

verus! {

/// Whether `c` is white space (`char::is_whitespace`: the Unicode White_Space
/// property).
pub uninterp spec fn is_space(c: char) -> bool;

/// Relies on `char::is_whitespace`, which depends on the character alone.
#[verifier::external_body]
fn char_is_space(c: char) -> (r: bool)
    ensures
        r == is_space(c),
{
    c.is_whitespace()
}

/// `s` without leading white space.
pub open spec fn trim_start(s: Seq<char>) -> Seq<char>
    decreases s.len(),
{
    if s.len() > 0 && is_space(s[0]) {
        trim_start(s.drop_first())
    } else {
        s
    }
}

/// `s` without trailing white space.
pub open spec fn trim_end(s: Seq<char>) -> Seq<char>
    decreases s.len(),
{
    if s.len() > 0 && is_space(s.last()) {
        trim_end(s.drop_last())
    } else {
        s
    }
}

/// `s` without white space at either end.
pub open spec fn trim(s: Seq<char>) -> Seq<char> {
    trim_end(trim_start(s))
}

/// The pieces of `s` between commas (one piece when there is no comma).
pub open spec fn split_commas(s: Seq<char>) -> Seq<Seq<char>>
    decreases s.len(),
{
    if s.len() == 0 {
        seq![Seq::empty()]
    } else {
        let prev = split_commas(s.drop_last());
        if s.last() == ',' {
            prev.push(Seq::empty())
        } else {
            prev.update(prev.len() - 1, prev.last().push(s.last()))
        }
    }
}

pub open spec fn is_digit(c: char) -> bool {
    '0' <= c && c <= '9'
}

/// The number written by decimal digits.
pub open spec fn decimal_value(d: Seq<char>) -> nat
    decreases d.len(),
{
    if d.len() == 0 {
        0
    } else {
        decimal_value(d.drop_last()) * 10 + (d.last() as nat - '0' as nat) as nat
    }
}

/// Every character is a decimal digit.
pub open spec fn all_digits(d: Seq<char>) -> bool {
    forall|i: int| 0 <= i < d.len() ==> is_digit(#[trigger] d[i])
}

/// The digits of a number with an optional `+` sign.
pub open spec fn unsigned_digits(s: Seq<char>) -> Seq<char> {
    if s.len() > 0 && s[0] == '+' {
        s.drop_first()
    } else {
        s
    }
}

/// A byte written in decimal with an optional `+` sign, as `u8::from_str`
/// reads it.
pub open spec fn parse_u8_spec(s: Seq<char>) -> Option<u8> {
    let d = unsigned_digits(s);
    if d.len() > 0 && all_digits(d) && decimal_value(d) <= 255 {
        Some(decimal_value(d) as u8)
    } else {
        None
    }
}

/// The bytes of the comma-separated pieces, or `None` if one is no byte.
pub open spec fn parse_pieces(pieces: Seq<Seq<char>>) -> Option<Seq<u8>>
    decreases pieces.len(),
{
    if pieces.len() == 0 {
        Some(Seq::empty())
    } else {
        match (parse_pieces(pieces.drop_last()), parse_u8_spec(trim(pieces.last()))) {
            (Some(prev), Some(b)) => Some(prev.push(b)),
            _ => None,
        }
    }
}

/// A data field: blank means no bytes; otherwise bytes separated by commas,
/// each with optional white space around it.
pub open spec fn parse_data_spec(s: Seq<char>) -> Option<Seq<u8>> {
    if trim(s).len() == 0 {
        Some(Seq::empty())
    } else {
        parse_pieces(split_commas(s))
    }
}

fn chars_of(s: &str) -> (r: Vec<char>)
    ensures
        r@ == s@,
{
    let n = s.unicode_len();
    let mut r: Vec<char> = Vec::new();
    let mut i: usize = 0;
    while i < n
        invariant
            n == s@.len(),
            i <= n,
            r@ == s@.subrange(0, i as int),
        decreases n - i,
    {
        r.push(s.get_char(i));
        proof {
            assert(r@ =~= s@.subrange(0, i + 1));
        }
        i += 1;
    }
    proof {
        assert(r@ =~= s@);
    }
    r
}

/// `cs` without white space at either end.
fn trimmed(cs: &Vec<char>) -> (r: Vec<char>)
    ensures
        r@ == trim(cs@),
{
    let mut start: usize = 0;
    proof {
        assert(cs@.subrange(0, cs@.len() as int) =~= cs@);
    }
    while start < cs.len() && char_is_space(cs[start])
        invariant
            start <= cs.len(),
            trim_start(cs@) == trim_start(cs@.subrange(start as int, cs@.len() as int)),
        decreases cs.len() - start,
    {
        proof {
            assert(cs@.subrange(start as int, cs@.len() as int).drop_first() =~= cs@.subrange(start + 1, cs@.len() as int));
        }
        start += 1;
    }
    let ghost rest = cs@.subrange(start as int, cs@.len() as int);
    assert(trim_start(cs@) == rest);
    let mut end: usize = cs.len();
    while end > start && char_is_space(cs[end - 1])
        invariant
            start <= end <= cs.len(),
            rest == cs@.subrange(start as int, cs@.len() as int),
            trim_end(rest) == trim_end(cs@.subrange(start as int, end as int)),
        decreases end - start,
    {
        proof {
            assert(cs@.subrange(start as int, end as int).drop_last() =~= cs@.subrange(start as int, end - 1));
        }
        end -= 1;
    }
    let mut r: Vec<char> = Vec::new();
    let mut i: usize = start;
    while i < end
        invariant
            start <= i <= end,
            end <= cs.len(),
            r@ == cs@.subrange(start as int, i as int),
        decreases end - i,
    {
        r.push(cs[i]);
        proof {
            assert(r@ =~= cs@.subrange(start as int, i + 1));
        }
        i += 1;
    }
    r
}

proof fn lemma_value_grows(d: Seq<char>, i: int)
    requires
        0 <= i <= d.len(),
    ensures
        decimal_value(d.subrange(0, i)) <= decimal_value(d),
    decreases d.len() - i,
{
    if i < d.len() {
        lemma_value_grows(d, i + 1);
        assert(d.subrange(0, i + 1).drop_last() =~= d.subrange(0, i));
    } else {
        assert(d.subrange(0, i) =~= d);
    }
}

/// Reads one byte the way `u8::from_str` does.
fn parse_u8(s: &Vec<char>) -> (r: Option<u8>)
    ensures
        r == parse_u8_spec(s@),
{
    let start: usize = if s.len() > 0 && s[0] == '+' {
        1
    } else {
        0
    };
    let ghost d = unsigned_digits(s@);
    assert(d =~= s@.subrange(start as int, s@.len() as int));
    if start >= s.len() {
        return None;
    }
    let mut value: u32 = 0;
    let mut i: usize = start;
    while i < s.len()
        invariant
            start <= i <= s.len(),
            d == unsigned_digits(s@),
            d == s@.subrange(start as int, s@.len() as int),
            forall|k: int| 0 <= k < i - start ==> is_digit(#[trigger] d[k]),
            value == decimal_value(d.subrange(0, i - start)),
            value <= 255,
        decreases s.len() - i,
    {
        let c = s[i];
        if !('0' <= c && c <= '9') {
            assert(!is_digit(d[i - start]));
            assert(!all_digits(d));
            return None;
        }
        proof {
            assert(d.subrange(0, i - start + 1).drop_last() =~= d.subrange(0, i - start));
        }
        value = value * 10 + (c as u32 - '0' as u32);
        assert(d[i - start] == c);
        assert(value == decimal_value(d.subrange(0, i - start + 1)));
        if value > 255 {
            proof {
                if all_digits(d) {
                    lemma_value_grows(d, i - start + 1);
                }
            }
            return None;
        }
        i += 1;
    }
    proof {
        assert(d.subrange(0, d.len() as int) =~= d);
    }
    Some(value as u8)
}

/// The comma-separated pieces of `cs`.
fn split_pieces(cs: &Vec<char>) -> (r: Vec<Vec<char>>)
    ensures
        r@.map_values(|p: Vec<char>| p@) == split_commas(cs@),
{
    let mut done: Vec<Vec<char>> = Vec::new();
    let mut current: Vec<char> = Vec::new();
    let mut i: usize = 0;
    while i < cs.len()
        invariant
            i <= cs.len(),
            done@.map_values(|p: Vec<char>| p@).push(current@) == split_commas(cs@.subrange(0, i as int)),
        decreases cs.len() - i,
    {
        proof {
            assert(cs@.subrange(0, i + 1).drop_last() =~= cs@.subrange(0, i as int));
        }
        let ghost prev = done@.map_values(|p: Vec<char>| p@).push(current@);
        if cs[i] == ',' {
            let piece = current;
            current = Vec::new();
            done.push(piece);
            proof {
                assert(done@.map_values(|p: Vec<char>| p@).push(current@) =~= prev.push(Seq::empty()));
            }
        } else {
            current.push(cs[i]);
            proof {
                assert(done@.map_values(|p: Vec<char>| p@).push(current@) =~= prev.update(
                    prev.len() - 1,
                    prev.last().push(cs@[i as int]),
                ));
            }
        }
        i += 1;
    }
    proof {
        assert(cs@.subrange(0, cs@.len() as int) =~= cs@);
    }
    let ghost before = done@.map_values(|p: Vec<char>| p@);
    done.push(current);
    proof {
        assert(done@.map_values(|p: Vec<char>| p@) =~= before.push(current@));
    }
    done
}

/// Reads a data field: a blank field holds no bytes; otherwise each
/// comma-separated piece, trimmed, must be a byte in decimal.
pub fn parse_data_list(s: &str) -> (r: Option<Vec<u8>>)
    ensures
        match r {
            Some(v) => parse_data_spec(s@) == Some(v@),
            None => parse_data_spec(s@) is None,
        },
{
    let cs = chars_of(s);
    let whole = trimmed(&cs);
    if whole.len() == 0 {
        return Some(Vec::new());
    }
    let pieces = split_pieces(&cs);
    assert(trim(s@).len() != 0);
    let ghost views = pieces@.map_values(|p: Vec<char>| p@);
    let mut out: Vec<u8> = Vec::new();
    let mut i: usize = 0;
    while i < pieces.len()
        invariant
            i <= pieces.len(),
            views == pieces@.map_values(|p: Vec<char>| p@),
            views == split_commas(s@),
            trim(s@).len() != 0,
            parse_pieces(views.subrange(0, i as int)) == Some(out@),
        decreases pieces.len() - i,
    {
        proof {
            assert(views.subrange(0, i + 1).drop_last() =~= views.subrange(0, i as int));
        }
        let piece = trimmed(&pieces[i]);
        assert(views[i as int] == pieces@[i as int]@);
        assert(views == split_commas(s@));
        match parse_u8(&piece) {
            Some(b) => out.push(b),
            None => {
                proof {
                    lemma_pieces_fail(views, i as int);
                }
                return None;
            },
        }
        i += 1;
    }
    proof {
        assert(views.subrange(0, views.len() as int) =~= views);
    }
    Some(out)
}

proof fn lemma_pieces_fail(pieces: Seq<Seq<char>>, i: int)
    requires
        0 <= i < pieces.len(),
        parse_u8_spec(trim(pieces[i])) is None,
    ensures
        parse_pieces(pieces) is None,
    decreases pieces.len(),
{
    if i < pieces.len() - 1 {
        lemma_pieces_fail(pieces.drop_last(), i);
    }
}

} // verus!
