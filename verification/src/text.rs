//! Text building blocks used by the task model: rendering an index as a
//! decimal string and substituting the replication placeholder inside a
//! task's name and command line.

use vstd::prelude::*;
use vstd::string::*;

verus! {

/// The character that renders a single decimal digit.
pub open spec fn digit_char(d: nat) -> char {
    if d == 0 {
        '0'
    } else if d == 1 {
        '1'
    } else if d == 2 {
        '2'
    } else if d == 3 {
        '3'
    } else if d == 4 {
        '4'
    } else if d == 5 {
        '5'
    } else if d == 6 {
        '6'
    } else if d == 7 {
        '7'
    } else if d == 8 {
        '8'
    } else {
        '9'
    }
}

/// The usual decimal rendering of `n`, most significant digit first,
/// without leading zeros (except for `n == 0` itself).
pub open spec fn decimal_spec(n: nat) -> Seq<char>
    decreases n,
{
    if n < 10 {
        seq![digit_char(n)]
    } else {
        decimal_spec(n / 10) + seq![digit_char(n % 10)]
    }
}

fn digit_str(d: u64) -> (r: &'static str)
    requires
        d < 10,
    ensures
        r@ =~= seq![digit_char(d as nat)],
{
    proof {
        reveal_strlit("0");
        reveal_strlit("1");
        reveal_strlit("2");
        reveal_strlit("3");
        reveal_strlit("4");
        reveal_strlit("5");
        reveal_strlit("6");
        reveal_strlit("7");
        reveal_strlit("8");
        reveal_strlit("9");
    }
    if d == 0 {
        "0"
    } else if d == 1 {
        "1"
    } else if d == 2 {
        "2"
    } else if d == 3 {
        "3"
    } else if d == 4 {
        "4"
    } else if d == 5 {
        "5"
    } else if d == 6 {
        "6"
    } else if d == 7 {
        "7"
    } else if d == 8 {
        "8"
    } else {
        "9"
    }
}

/// Renders `n` in decimal.
pub fn decimal_string(n: u64) -> (r: String)
    ensures
        r@ == decimal_spec(n as nat),
    decreases n,
{
    if n < 10 {
        String::from_str(digit_str(n))
    } else {
        let mut r = decimal_string(n / 10);
        r.append(digit_str(n % 10));
        r
    }
}

/// The literal token that marks where a replication index is spliced into a
/// task's name and command.
pub open spec fn placeholder() -> Seq<char> {
    seq!['{', '{', 'i', 'n', 'd', 'e', 'x', '}', '}']
}

/// `s` with every occurrence of the placeholder token replaced by `rep`,
/// scanning left to right over non-overlapping matches.
pub open spec fn replace_spec(s: Seq<char>, rep: Seq<char>) -> Seq<char>
    decreases s.len(),
{
    if s.len() >= 9 && s.subrange(0, 9) == placeholder() {
        rep + replace_spec(s.skip(9), rep)
    } else if s.len() == 0 {
        Seq::empty()
    } else {
        seq![s[0]] + replace_spec(s.skip(1), rep)
    }
}

fn placeholder_at(s: &str, i: usize, n: usize) -> (r: bool)
    requires
        n == s@.len(),
        i + 9 <= n,
    ensures
        r == (s@.subrange(i as int, i + 9) == placeholder()),
{
    let r = s.get_char(i) == '{' && s.get_char(i + 1) == '{' && s.get_char(i + 2) == 'i'
        && s.get_char(i + 3) == 'n' && s.get_char(i + 4) == 'd' && s.get_char(i + 5) == 'e'
        && s.get_char(i + 6) == 'x' && s.get_char(i + 7) == '}' && s.get_char(i + 8) == '}';
    proof {
        if r {
            assert(s@.subrange(i as int, i + 9) =~= placeholder());
        }
    }
    r
}

/// `s` with every occurrence of the placeholder token replaced by `rep`.
pub fn replace_placeholder(s: &str, rep: &str) -> (r: String)
    ensures
        r@ == replace_spec(s@, rep@),
{
    let n = s.unicode_len();
    let mut r = String::new();
    let mut i: usize = 0;
    proof {
        assert(s@.skip(0) =~= s@);
        assert(r@ + replace_spec(s@, rep@) =~= replace_spec(s@, rep@));
    }
    while i < n
        invariant
            i <= n,
            n == s@.len(),
            replace_spec(s@, rep@) == r@ + replace_spec(s@.skip(i as int), rep@),
        decreases n - i,
    {
        let ghost tail = s@.skip(i as int);
        if n - i >= 9 && placeholder_at(s, i, n) {
            r.append(rep);
            proof {
                assert(tail.subrange(0, 9) =~= s@.subrange(i as int, i + 9));
                assert(tail.skip(9) =~= s@.skip(i + 9));
            }
            i += 9;
        } else {
            let piece = s.substring_char(i, i + 1);
            r.append(piece);
            proof {
                if i + 9 <= n {
                    assert(tail.subrange(0, 9) =~= s@.subrange(i as int, i + 9));
                }
                assert(piece@ =~= seq![tail[0]]);
                assert(tail.skip(1) =~= s@.skip(i + 1));
            }
            i += 1;
        }
    }
    proof {
        assert(s@.skip(n as int) =~= Seq::<char>::empty());
    }
    r
}

/// The separators between fields of a provisioning reply.
pub open spec fn is_space(c: char) -> bool {
    c == ' ' || c == '\t' || c == '\n' || c == '\r'
}

/// `s` with its leading whitespace removed.
pub open spec fn skip_spaces(s: Seq<char>) -> Seq<char>
    decreases s.len(),
{
    if s.len() > 0 && is_space(s[0]) {
        skip_spaces(s.skip(1))
    } else {
        s
    }
}

/// The leading run of non-whitespace characters of `s`.
pub open spec fn head_field(s: Seq<char>) -> Seq<char>
    decreases s.len(),
{
    if s.len() > 0 && !is_space(s[0]) {
        seq![s[0]] + head_field(s.skip(1))
    } else {
        Seq::empty()
    }
}

/// `s` with its leading run of non-whitespace characters removed.
pub open spec fn after_field(s: Seq<char>) -> Seq<char>
    decreases s.len(),
{
    if s.len() > 0 && !is_space(s[0]) {
        after_field(s.skip(1))
    } else {
        s
    }
}

fn is_space_char(c: char) -> (r: bool)
    ensures
        r == is_space(c),
{
    c == ' ' || c == '\t' || c == '\n' || c == '\r'
}

/// Finds the next whitespace-separated field of `s` at or after character
/// position `from`: the positions of its first character and one past its
/// last. An empty field (both positions at the end) means no field is left.
pub fn field_bounds(s: &str, from: usize, n: usize) -> (r: (usize, usize))
    requires
        n == s@.len(),
        from <= n,
    ensures
        from <= r.0 <= r.1 <= n,
        head_field(skip_spaces(s@.skip(from as int))) == s@.subrange(r.0 as int, r.1 as int),
        after_field(skip_spaces(s@.skip(from as int))) == s@.skip(r.1 as int),
{
    let ghost whole = s@.skip(from as int);
    let mut a = from;
    while a < n && is_space_char(s.get_char(a))
        invariant
            from <= a <= n,
            n == s@.len(),
            skip_spaces(whole) == skip_spaces(s@.skip(a as int)),
        decreases n - a,
    {
        proof {
            assert(s@.skip(a as int)[0] == s@[a as int]);
            assert(s@.skip(a as int).skip(1) =~= s@.skip(a + 1));
        }
        a += 1;
    }
    proof {
        if a < n {
            assert(s@.skip(a as int)[0] == s@[a as int]);
        } else {
            assert(s@.skip(a as int) =~= Seq::<char>::empty());
        }
        assert(skip_spaces(whole) == s@.skip(a as int));
    }
    let ghost start = s@.skip(a as int);
    let mut b = a;
    proof {
        assert(s@.subrange(a as int, a as int) + head_field(s@.skip(a as int)) =~= head_field(
            s@.skip(a as int),
        ));
    }
    while b < n && !is_space_char(s.get_char(b))
        invariant
            a <= b <= n,
            n == s@.len(),
            start == s@.skip(a as int),
            head_field(start) == s@.subrange(a as int, b as int) + head_field(s@.skip(b as int)),
            after_field(start) == after_field(s@.skip(b as int)),
        decreases n - b,
    {
        proof {
            assert(s@.skip(b as int)[0] == s@[b as int]);
            assert(s@.skip(b as int).skip(1) =~= s@.skip(b + 1));
            assert(s@.subrange(a as int, b as int) + (seq![s@[b as int]] + head_field(
                s@.skip(b + 1),
            )) =~= s@.subrange(a as int, b + 1) + head_field(s@.skip(b + 1)));
        }
        b += 1;
    }
    proof {
        if b < n {
            assert(s@.skip(b as int)[0] == s@[b as int]);
        } else {
            assert(s@.skip(b as int) =~= Seq::<char>::empty());
        }
        assert(head_field(s@.skip(b as int)) =~= Seq::<char>::empty());
        assert(s@.subrange(a as int, b as int) + Seq::<char>::empty() =~= s@.subrange(
            a as int,
            b as int,
        ));
        assert(after_field(s@.skip(b as int)) == s@.skip(b as int));
    }
    (a, b)
}

} // verus!
