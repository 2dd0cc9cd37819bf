//! Small verified text helpers: decimal rendering, joining, prefix tests
//! and splitting, used by the assembler error type and the documentation
//! parser.

use vstd::prelude::*;
use vstd::string::StrSliceExecFns;
use vstd::string::StringExecFns;

verus! {

/// The decimal digit character for `d`.
pub open spec fn digit_char(d: nat) -> char {
    if d == 0 {
        '0'
    } else if d == 1 {
        '1'
    } else if d == 2 {
        '2'
    } else if d == 3 {
        '3'
    } else if d == 4 {
        '4'
    } else if d == 5 {
        '5'
    } else if d == 6 {
        '6'
    } else if d == 7 {
        '7'
    } else if d == 8 {
        '8'
    } else {
        '9'
    }
}

/// The decimal rendering of `n`, most significant digit first.
pub open spec fn dec_spec(n: nat) -> Seq<char>
    decreases n,
{
    if n < 10 {
        seq![digit_char(n)]
    } else {
        dec_spec(n / 10).push(digit_char(n % 10))
    }
}

/// One decimal digit as a string slice.
fn digit_str(d: u64) -> (r: &'static str)
    requires
        d < 10,
    ensures
        r@ == seq![digit_char(d as nat)],
{
    let r: &'static str = if d == 0 {
        "0"
    } else if d == 1 {
        "1"
    } else if d == 2 {
        "2"
    } else if d == 3 {
        "3"
    } else if d == 4 {
        "4"
    } else if d == 5 {
        "5"
    } else if d == 6 {
        "6"
    } else if d == 7 {
        "7"
    } else if d == 8 {
        "8"
    } else {
        "9"
    };
    proof {
        reveal_strlit("0");
        reveal_strlit("1");
        reveal_strlit("2");
        reveal_strlit("3");
        reveal_strlit("4");
        reveal_strlit("5");
        reveal_strlit("6");
        reveal_strlit("7");
        reveal_strlit("8");
        reveal_strlit("9");
        assert(r@ =~= seq![digit_char(d as nat)]);
    }
    r
}

/// Renders `n` in decimal.
pub fn dec_str(n: u64) -> (r: String)
    ensures
        r@ == dec_spec(n as nat),
    decreases n,
{
    if n < 10 {
        String::from_str(digit_str(n))
    } else {
        let prefix = dec_str(n / 10);
        let r = prefix.concat(digit_str(n % 10));
        proof {
            assert(r@ =~= dec_spec(n as nat));
        }
        r
    }
}

/// Whether `s` begins with `prefix`.
pub open spec fn starts_with_spec(s: Seq<char>, prefix: Seq<char>) -> bool {
    s.len() >= prefix.len() && s.subrange(0, prefix.len() as int) == prefix
}

/// Whether `s` begins with `prefix`.
pub fn starts_with(s: &str, prefix: &str) -> (r: bool)
    ensures
        r == starts_with_spec(s@, prefix@),
{
    let n = s.unicode_len();
    let p = prefix.unicode_len();
    if n < p {
        proof {
            assert(!starts_with_spec(s@, prefix@));
        }
        return false;
    }
    let mut i: usize = 0;
    while i < p
        invariant
            i <= p,
            p == prefix@.len(),
            n == s@.len(),
            n >= p,
            forall|j: int| 0 <= j < i ==> s@[j] == prefix@[j],
        decreases p - i,
    {
        if s.get_char(i) != prefix.get_char(i) {
            proof {
                assert(s@.subrange(0, p as int)[i as int] != prefix@[i as int]);
            }
            return false;
        }
        i = i + 1;
    }
    proof {
        assert(s@.subrange(0, p as int) =~= prefix@);
    }
    true
}

/// The text after `prefix`, which must be present at the front of `line`.
pub fn remove_prefix(prefix: &str, line: &str) -> (r: String)
    requires
        starts_with_spec(line@, prefix@),
    ensures
        r@ == line@.skip(prefix@.len() as int),
{
    let p = prefix.unicode_len();
    let n = line.unicode_len();
    let tail = line.substring_char(p, n);
    proof {
        assert(tail@ =~= line@.skip(prefix@.len() as int));
    }
    String::from_str(tail)
}

/// `parts` joined by `sep`, in order.
pub open spec fn join_spec(parts: Seq<Seq<char>>, sep: char) -> Seq<char>
    decreases parts.len(),
{
    if parts.len() == 0 {
        Seq::empty()
    } else if parts.len() == 1 {
        parts[0]
    } else {
        join_spec(parts.drop_last(), sep).push(sep) + parts.last()
    }
}

/// Joins strings with a separator, itself a one-character string.
pub fn join_with(parts: &Vec<String>, sep: &str) -> (r: String)
    requires
        sep@.len() == 1,
    ensures
        r@ == join_spec(parts@.map(|i: int, p: String| p@), sep@[0]),
{
    let ghost model = parts@.map(|i: int, p: String| p@);
    let ghost c = sep@[0];
    let mut r = String::new();
    let mut i: usize = 0;
    proof {
        assert(model.subrange(0, 0) =~= Seq::<Seq<char>>::empty());
    }
    while i < parts.len()
        invariant
            i <= parts@.len(),
            sep@.len() == 1,
            c == sep@[0],
            model == parts@.map(|i: int, p: String| p@),
            r@ == join_spec(model.subrange(0, i as int), c),
        decreases parts@.len() - i,
    {
        if i > 0 {
            r.append(sep);
        }
        r.append(parts[i].as_str());
        proof {
            assert(model.subrange(0, i + 1).drop_last() =~= model.subrange(0, i as int));
            assert(model.subrange(0, i + 1).last() == model[i as int]);
            assert(sep@ =~= seq![c]);
            assert(r@ =~= join_spec(model.subrange(0, i + 1), c));
        }
        i = i + 1;
    }
    proof {
        assert(model.subrange(0, model.len() as int) =~= model);
    }
    r
}

/// `s` split at every occurrence of `c`: the pieces in order, with an empty
/// piece between, before or after adjacent separators.
pub open spec fn split_spec(s: Seq<char>, c: char) -> Seq<Seq<char>>
    decreases s.len(),
{
    if s.len() == 0 {
        seq![Seq::<char>::empty()]
    } else {
        let prev = split_spec(s.drop_last(), c);
        if s.last() == c {
            prev.push(Seq::empty())
        } else {
            prev.update(prev.len() - 1, prev.last().push(s.last()))
        }
    }
}

/// Splits `s` at every occurrence of the one-character separator.
pub fn split_at_char(s: &str, sep: &str) -> (r: Vec<String>)
    requires
        sep@.len() == 1,
    ensures
        r@.map(|i: int, p: String| p@) == split_spec(s@, sep@[0]),
{
    let ghost c = sep@[0];
    let sepc = sep.get_char(0);
    let n = s.unicode_len();
    let mut r: Vec<String> = Vec::new();
    let mut start: usize = 0;
    let mut i: usize = 0;
    proof {
        assert(s@.subrange(0, 0) =~= Seq::<char>::empty());
        assert(r@.map(|i: int, p: String| p@).push(s@.subrange(0, 0)) =~= split_spec(
            s@.subrange(0, 0),
            c,
        ));
    }
    while i < n
        invariant
            start <= i <= n,
            n == s@.len(),
            sep@.len() == 1,
            c == sep@[0],
            sepc == c,
            r@.map(|i: int, p: String| p@).push(s@.subrange(start as int, i as int))
                == split_spec(s@.subrange(0, i as int), c),
        decreases n - i,
    {
        let ch = s.get_char(i);
        proof {
            assert(s@.subrange(0, i + 1).drop_last() =~= s@.subrange(0, i as int));
            assert(s@.subrange(0, i + 1).last() == s@[i as int]);
        }
        if ch == sepc {
            let piece = String::from_str(s.substring_char(start, i));
            r.push(piece);
            start = i + 1;
            proof {
                assert(s@.subrange(i + 1, i + 1) =~= Seq::<char>::empty());
                assert(r@.map(|i: int, p: String| p@).push(s@.subrange(i + 1, i + 1))
                    =~= split_spec(s@.subrange(0, i + 1), c));
            }
        } else {
            proof {
                let prev = split_spec(s@.subrange(0, i as int), c);
                assert(prev.len() > 0);
                assert(s@.subrange(start as int, i + 1) =~= s@.subrange(start as int, i as int)
                    .push(s@[i as int]));
                assert(r@.map(|i: int, p: String| p@).push(s@.subrange(start as int, i + 1))
                    =~= prev.update(prev.len() - 1, prev.last().push(s@[i as int])));
            }
        }
        i = i + 1;
    }
    let piece = String::from_str(s.substring_char(start, n));
    r.push(piece);
    proof {
        assert(s@.subrange(0, n as int) =~= s@);
        assert(r@.map(|i: int, p: String| p@) =~= split_spec(s@, c));
    }
    r
}


/// A string's characters with quotes and backslashes escaped, as the
/// debug rendering of a string escapes them. Control characters are kept
/// as they are.
pub open spec fn escaped_spec(s: Seq<char>) -> Seq<char>
    decreases s.len(),
{
    if s.len() == 0 {
        Seq::empty()
    } else {
        escaped_spec(s.drop_last()) + (if s.last() == '"' || s.last() == '\\' {
            seq!['\\', s.last()]
        } else {
            seq![s.last()]
        })
    }
}

/// A string as its debug rendering: quoted, with quotes and backslashes
/// escaped.
pub open spec fn quoted_spec(s: Seq<char>) -> Seq<char> {
    seq!['"'] + escaped_spec(s) + seq!['"']
}

/// Renders `s` quoted, escaping quotes and backslashes.
pub fn quote_str(s: &str) -> (r: String)
    ensures
        r@ == quoted_spec(s@),
{
    proof {
        reveal_strlit("\"");
        reveal_strlit("\\");
    }
    let n = s.unicode_len();
    let mut r = String::from_str("\"");
    let mut i: usize = 0;
    proof {
        assert(s@.subrange(0, 0) =~= Seq::<char>::empty());
        assert(r@ =~= seq!['"'] + escaped_spec(s@.subrange(0, 0)));
    }
    while i < n
        invariant
            i <= n,
            n == s@.len(),
            r@ == seq!['"'] + escaped_spec(s@.subrange(0, i as int)),
        decreases n - i,
    {
        let c = s.get_char(i);
        proof {
            reveal_strlit("\\");
            assert(s@.subrange(0, i + 1).drop_last() =~= s@.subrange(0, i as int));
            assert(s@.subrange(0, i + 1).last() == s@[i as int]);
        }
        if c == '"' || c == '\\' {
            r.append("\\");
        }
        let piece = s.substring_char(i, i + 1);
        proof {
            assert(piece@ =~= seq![s@[i as int]]);
        }
        r.append(piece);
        proof {
            assert(r@ =~= seq!['"'] + escaped_spec(s@.subrange(0, i + 1)));
        }
        i = i + 1;
    }
    proof {
        reveal_strlit("\"");
        assert(s@.subrange(0, n as int) =~= s@);
    }
    let r2 = r.concat("\"");
    proof {
        assert(r2@ =~= quoted_spec(s@));
    }
    r2
}

/// The inner text of a debug-rendered list of strings: each element quoted
/// and escaped, separated by a comma and a space.
pub open spec fn quoted_items_spec(parts: Seq<Seq<char>>) -> Seq<char>
    decreases parts.len(),
{
    if parts.len() == 0 {
        Seq::empty()
    } else if parts.len() == 1 {
        quoted_spec(parts[0])
    } else {
        quoted_items_spec(parts.drop_last()) + seq![',', ' '] + quoted_spec(parts.last())
    }
}

/// A list of strings as its debug rendering: bracketed, each element quoted,
/// separated by a comma and a space.
pub open spec fn quoted_list_spec(parts: Seq<Seq<char>>) -> Seq<char> {
    seq!['['] + quoted_items_spec(parts) + seq![']']
}

/// Renders a list of strings as its debug form.
pub fn quote_list(parts: &Vec<String>) -> (r: String)
    ensures
        r@ == quoted_list_spec(parts@.map(|i: int, p: String| p@)),
{
    proof {
        reveal_strlit("[");
        reveal_strlit("]");
        reveal_strlit(", ");
    }
    let ghost model = parts@.map(|i: int, p: String| p@);
    let mut r = String::from_str("[");
    let mut i: usize = 0;
    proof {
        assert(model.subrange(0, 0) =~= Seq::<Seq<char>>::empty());
        assert(r@ =~= seq!['['] + quoted_items_spec(model.subrange(0, 0)));
    }
    while i < parts.len()
        invariant
            i <= parts@.len(),
            model == parts@.map(|i: int, p: String| p@),
            r@ == seq!['['] + quoted_items_spec(model.subrange(0, i as int)),
        decreases parts@.len() - i,
    {
        proof {
            reveal_strlit(", ");
        }
        if i > 0 {
            r.append(", ");
        }
        let q = quote_str(parts[i].as_str());
        r.append(q.as_str());
        proof {
            assert(model.subrange(0, i + 1).drop_last() =~= model.subrange(0, i as int));
            assert(model.subrange(0, i + 1).last() == model[i as int]);
            assert(r@ =~= seq!['['] + quoted_items_spec(model.subrange(0, i + 1)));
        }
        i = i + 1;
    }
    proof {
        reveal_strlit("]");
        assert(model.subrange(0, model.len() as int) =~= model);
    }
    let r2 = r.concat("]");
    proof {
        assert(r2@ =~= quoted_list_spec(model));
    }
    r2
}

} // verus!
