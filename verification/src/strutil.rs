//! Small verified string helpers shared across the engine.

use vstd::prelude::*;
use vstd::string::StringExecFns;

verus! {

/// Compare two string slices by their character content.
pub fn str_eq(a: &str, b: &str) -> (r: bool)
    ensures
        r == (a@ == b@),
{
    let sa: String = a.to_owned();
    let sb: String = b.to_owned();
    sa == sb
}

/// Copy a string slice into an owned string with the same characters.
pub fn str_copy(a: &str) -> (r: String)
    ensures
        r@ == a@,
{
    a.to_owned()
}

/// The blank characters that trimming strips: space, tab and line ends.
pub open spec fn is_blank(c: char) -> bool {
    c == ' ' || c == '\t' || c == '\n' || c == '\r'
}

/// Decide `is_blank`.
pub fn blank_char(c: char) -> (r: bool)
    ensures
        r == is_blank(c),
{
    c == ' ' || c == '\t' || c == '\n' || c == '\r'
}

/// `s` without its leading blanks.
pub open spec fn trim_front(s: Seq<char>) -> Seq<char>
    decreases s.len(),
{
    if s.len() > 0 && is_blank(s[0]) {
        trim_front(s.subrange(1, s.len() as int))
    } else {
        s
    }
}

/// `s` without its trailing blanks.
pub open spec fn trim_back(s: Seq<char>) -> Seq<char>
    decreases s.len(),
{
    if s.len() > 0 && is_blank(s[s.len() - 1]) {
        trim_back(s.drop_last())
    } else {
        s
    }
}

/// `s` without leading and trailing blanks.
pub open spec fn trim_spec(s: Seq<char>) -> Seq<char> {
    trim_back(trim_front(s))
}

/// Strip leading and trailing blanks from a string slice.
pub fn trim(s: &str) -> (r: String)
    ensures
        r@ == trim_spec(s@),
{
    let chars = str_to_chars(s);
    let n = chars.len();
    proof {
        assert(s@.subrange(0, n as int) =~= s@);
    }
    let mut a: usize = 0;
    while a < n && blank_char(chars[a])
        invariant
            n == chars@.len(),
            chars@ == s@,
            a <= n,
            trim_front(s@) == trim_front(s@.subrange(a as int, n as int)),
        decreases n - a,
    {
        proof {
            assert(s@.subrange(a as int, n as int).subrange(
                1,
                (n - a) as int,
            ) =~= s@.subrange(a + 1, n as int));
        }
        a = a + 1;
    }
    proof {
        if a < n {
            assert(s@.subrange(a as int, n as int)[0] == s@[a as int]);
        } else {
            assert(s@.subrange(a as int, n as int).len() == 0);
        }
        assert(trim_front(s@) == s@.subrange(a as int, n as int));
    }
    let mut b: usize = n;
    while b > a && blank_char(chars[b - 1])
        invariant
            n == chars@.len(),
            chars@ == s@,
            a <= b <= n,
            trim_front(s@) == s@.subrange(a as int, n as int),
            trim_back(trim_front(s@)) == trim_back(s@.subrange(a as int, b as int)),
        decreases b,
    {
        proof {
            assert(s@.subrange(a as int, b as int).drop_last() =~= s@.subrange(
                a as int,
                b - 1,
            ));
        }
        b = b - 1;
    }
    proof {
        if b > a {
            assert(s@.subrange(a as int, b as int)[b - a - 1] == s@[b - 1]);
        } else {
            assert(s@.subrange(a as int, b as int).len() == 0);
        }
        assert(trim_spec(s@) == s@.subrange(a as int, b as int));
    }
    let mut out: Vec<char> = Vec::new();
    let mut i: usize = a;
    while i < b
        invariant
            a <= i <= b <= n,
            n == chars@.len(),
            chars@ == s@,
            out@ == s@.subrange(a as int, i as int),
        decreases b - i,
    {
        out.push(chars[i]);
        proof {
            assert(out@ =~= s@.subrange(a as int, i + 1));
        }
        i = i + 1;
    }
    chars_to_string(&out)
}

/// The pieces of `s` cut at every occurrence of `c`; cutting nothing
/// yields one piece, and a trailing separator yields a trailing empty
/// piece.
pub open spec fn split_at_char(s: Seq<char>, c: char) -> Seq<Seq<char>>
    decreases s.len(),
{
    if s.len() == 0 {
        seq![Seq::<char>::empty()]
    } else {
        let r = split_at_char(s.drop_last(), c);
        if s.last() == c {
            r.push(Seq::<char>::empty())
        } else {
            r.update(r.len() - 1, r.last().push(s.last()))
        }
    }
}

/// The pieces of `s` cut at every semicolon.
pub open spec fn split_semi(s: Seq<char>) -> Seq<Seq<char>> {
    split_at_char(s, ';')
}

/// Cutting yields at least one piece.
pub proof fn lemma_split_at_char_len(s: Seq<char>, c: char)
    ensures
        split_at_char(s, c).len() >= 1,
    decreases s.len(),
{
    if s.len() > 0 {
        lemma_split_at_char_len(s.drop_last(), c);
    }
}

/// Cut a string at every occurrence of `c`, executably.
pub fn split_chars(string: &str, c: char) -> (r: Vec<String>)
    ensures
        r.deep_view().len() == split_at_char(string@, c).len(),
        forall|i: int|
            0 <= i < r.deep_view().len() ==> r.deep_view()[i] == #[trigger] split_at_char(
                string@,
                c,
            )[i],
{
    let chars = str_to_chars(string);
    let n = chars.len();
    let mut pieces: Vec<String> = Vec::new();
    let mut cur: Vec<char> = Vec::new();
    let mut i: usize = 0;
    while i < n
        invariant
            n == chars@.len(),
            chars@ == string@,
            i <= n,
            split_at_char(string@.subrange(0, i as int), c).len() == pieces@.len() + 1,
            forall|k: int|
                0 <= k < pieces@.len() ==> pieces@[k]@ == #[trigger] split_at_char(
                    string@.subrange(0, i as int),
                    c,
                )[k],
            cur@ == split_at_char(string@.subrange(0, i as int), c).last(),
        decreases n - i,
    {
        proof {
            assert(string@.subrange(0, i + 1).drop_last() =~= string@.subrange(0, i as int));
            assert(string@.subrange(0, i + 1).last() == string@[i as int]);
            lemma_split_at_char_len(string@.subrange(0, i as int), c);
        }
        let ch = chars[i];
        if ch == c {
            let piece = chars_to_string(&cur);
            pieces.push(piece);
            cur = Vec::new();
        } else {
            cur.push(ch);
        }
        i = i + 1;
    }
    proof {
        assert(string@.subrange(0, n as int) =~= string@);
        lemma_split_at_char_len(string@, c);
    }
    let piece = chars_to_string(&cur);
    pieces.push(piece);
    proof {
        assert(forall|i: int|
            0 <= i < pieces@.len() ==> pieces.deep_view()[i] == (#[trigger] pieces@[i])@);
    }
    pieces
}

/// `v` joined into one string with a semicolon between the pieces.
pub open spec fn join_semi(v: Seq<Seq<char>>) -> Seq<char>
    decreases v.len(),
{
    if v.len() == 0 {
        Seq::empty()
    } else if v.len() == 1 {
        v[0]
    } else {
        join_semi(v.drop_last()) + seq![';'] + v.last()
    }
}

/// Turn a Vec of Strings into a semicolon separated String.
pub fn serialize_vec(vec: &Vec<String>) -> (r: String)
    ensures
        r@ == join_semi(vec.deep_view()),
{
    let ghost dv = vec.deep_view();
    proof {
        assert(dv.len() == vec@.len());
        assert(forall|j: int| 0 <= j < vec@.len() ==> dv[j] == (#[trigger] vec@[j])@);
    }
    let mut out = String::new();
    let n = vec.len();
    let mut i: usize = 0;
    while i < n
        invariant
            n == vec@.len(),
            dv.len() == n,
            i <= n,
            forall|j: int| 0 <= j < n ==> dv[j] == (#[trigger] vec@[j])@,
            out@ == join_semi(dv.subrange(0, i as int)),
        decreases n - i,
    {
        proof {
            assert(dv.subrange(0, i + 1).drop_last() =~= dv.subrange(0, i as int));
            assert(dv.subrange(0, i + 1).last() == vec@[i as int]@);
            if i == 0 {
                assert(dv.subrange(0, 1)[0] == vec@[0]@);
            }
        }
        if i > 0 {
            proof {
                reveal_strlit(";");
                assert(";"@ =~= seq![';']);
            }
            out.append(";");
        }
        out.append(vec[i].as_str());
        i = i + 1;
    }
    proof {
        assert(dv.subrange(0, n as int) =~= dv);
        if n == 0 {
            assert(join_semi(dv) =~= Seq::<char>::empty());
        }
    }
    out
}

/// Turn a String of semicolon separated items into a Vec of Strings, each
/// piece trimmed of leading and trailing blanks.
pub fn deserialize_vec(string: &str) -> (r: Vec<String>)
    ensures
        r.deep_view().len() == split_semi(string@).len(),
        forall|i: int|
            0 <= i < r.deep_view().len() ==> r.deep_view()[i] == trim_spec(
                #[trigger] split_semi(string@)[i],
            ),
{
    let chars = str_to_chars(string);
    let n = chars.len();
    let mut pieces: Vec<String> = Vec::new();
    let mut cur: Vec<char> = Vec::new();
    let mut i: usize = 0;
    while i < n
        invariant
            n == chars@.len(),
            chars@ == string@,
            i <= n,
            split_semi(string@.subrange(0, i as int)).len() == pieces@.len() + 1,
            forall|k: int|
                0 <= k < pieces@.len() ==> pieces@[k]@ == trim_spec(
                    #[trigger] split_semi(string@.subrange(0, i as int))[k],
                ),
            cur@ == split_semi(string@.subrange(0, i as int)).last(),
        decreases n - i,
    {
        proof {
            assert(string@.subrange(0, i + 1).drop_last() =~= string@.subrange(0, i as int));
            assert(string@.subrange(0, i + 1).last() == string@[i as int]);
            lemma_split_at_char_len(string@.subrange(0, i as int), ';');
        }
        let c = chars[i];
        if c == ';' {
            let piece = chars_to_string(&cur);
            let trimmed = trim(piece.as_str());
            pieces.push(trimmed);
            cur = Vec::new();
        } else {
            cur.push(c);
        }
        i = i + 1;
    }
    proof {
        assert(string@.subrange(0, n as int) =~= string@);
        lemma_split_at_char_len(string@, ';');
    }
    let piece = chars_to_string(&cur);
    let trimmed = trim(piece.as_str());
    pieces.push(trimmed);
    proof {
        assert forall|i: int| 0 <= i < pieces.deep_view().len() implies pieces.deep_view()[i]
            == trim_spec(#[trigger] split_semi(string@)[i]) by {
            assert(pieces.deep_view()[i] == pieces@[i]@);
        }
    }
    pieces
}

/// Relies on str::chars and Iterator::collect: the characters of a slice,
/// in order, as a vector.
#[verifier::external_body]
pub fn str_to_chars(s: &str) -> (r: Vec<char>)
    ensures
        r@ == s@,
{
    s.chars().collect()
}

/// Relies on String::from_iter: the string holding exactly the given
/// characters, in order.
#[verifier::external_body]
pub fn chars_to_string(v: &Vec<char>) -> (r: String)
    ensures
        r@ == v@,
{
    v.iter().collect()
}

} // verus!
