//! The persisted text format: a JSON-shaped structured text encoding for
//! the engine's data, written and parsed by verified code.  The serializer
//! emits one canonical form; the parser accepts exactly that form, and
//! parsing a serialized value gives the value back.

use vstd::prelude::*;
use crate::item::{entries_view, Item, ItemV, lemma_entries_view};
use crate::meta::{Meta, MetaV};
use crate::response::channels_view;
use crate::storage::StorageV;
use crate::strutil::{chars_to_string, str_to_chars, str_eq};

verus! {

/// `t` occurs in `s` starting at position `i`.
pub open spec fn matches_at(s: Seq<char>, i: int, t: Seq<char>) -> bool {
    &&& 0 <= i
    &&& i + t.len() <= s.len()
    &&& s.subrange(i, i + t.len()) == t
}

/// A match of a concatenation is a match of each part in turn.
pub proof fn lemma_matches_split(s: Seq<char>, i: int, a: Seq<char>, b: Seq<char>)
    requires
        matches_at(s, i, a + b),
    ensures
        matches_at(s, i, a),
        matches_at(s, i + a.len(), b),
{
    let ab = a + b;
    assert forall|k: int| 0 <= k < a.len() implies s.subrange(i, i + a.len())[k] == a[k] by {
        assert(s.subrange(i, i + ab.len())[k] == ab[k]);
    }
    assert(s.subrange(i, i + a.len()) =~= a);
    assert forall|k: int| 0 <= k < b.len() implies s.subrange(
        i + a.len(),
        i + a.len() + b.len(),
    )[k] == b[k] by {
        assert(s.subrange(i, i + ab.len())[a.len() + k] == ab[a.len() + k]);
        assert(ab[a.len() + k] == b[k]);
    }
    assert(s.subrange(i + a.len(), i + a.len() + b.len()) =~= b);
}

/// A one-character match names the character.
pub proof fn lemma_matches_char(s: Seq<char>, i: int, c: char)
    requires
        matches_at(s, i, seq![c]),
    ensures
        i < s.len(),
        s[i] == c,
{
    assert(s.subrange(i, i + 1)[0] == c);
}

/// How one character is written inside a quoted string: quotes and
/// backslashes get a backslash before them, all else stands as it is.
pub open spec fn esc_char(c: char) -> Seq<char> {
    if c == '"' || c == '\\' {
        seq!['\\', c]
    } else {
        seq![c]
    }
}

/// The escaped body of a quoted string.
pub open spec fn esc(s: Seq<char>) -> Seq<char>
    decreases s.len(),
{
    if s.len() == 0 {
        Seq::empty()
    } else {
        esc(s.drop_last()) + esc_char(s.last())
    }
}

/// Escaping also proceeds character by character from the front.
pub proof fn lemma_esc_front(s: Seq<char>)
    requires
        s.len() > 0,
    ensures
        esc(s) == esc_char(s[0]) + esc(s.subrange(1, s.len() as int)),
    decreases s.len(),
{
    if s.len() == 1 {
        assert(s.drop_last() =~= Seq::<char>::empty());
        assert(s.subrange(1, 1) =~= Seq::<char>::empty());
        assert(esc_char(s[0]) + esc(s.subrange(1, 1)) =~= esc_char(s.last()));
        assert(esc(s) =~= esc_char(s.last()));
    } else {
        lemma_esc_front(s.drop_last());
        let t = s.subrange(1, s.len() as int);
        assert(s.drop_last()[0] == s[0]);
        assert(s.drop_last().subrange(1, s.len() - 1) =~= t.drop_last());
        assert(t.last() == s.last());
        assert(esc(s) == esc(s.drop_last()) + esc_char(s.last()));
        assert(esc(s.drop_last()) == esc_char(s[0]) + esc(t.drop_last()));
        assert(esc(t) == esc(t.drop_last()) + esc_char(t.last()));
        assert(esc_char(s[0]) + esc(t.drop_last()) + esc_char(s.last()) =~= esc_char(s[0]) + esc(
            t,
        ));
    }
}

/// A quoted string: the escaped body between two quotes.
pub open spec fn ser_str(s: Seq<char>) -> Seq<char> {
    seq!['"'] + esc(s) + seq!['"']
}

/// Append the quoted form of `s` to `out`.
pub fn write_str(out: &mut Vec<char>, s: &str)
    ensures
        final(out)@ == old(out)@ + ser_str(s@),
{
    let chars = str_to_chars(s);
    out.push('"');
    let n = chars.len();
    let mut i: usize = 0;
    while i < n
        invariant
            n == chars@.len(),
            chars@ == s@,
            i <= n,
            out@ == old(out)@ + seq!['"'] + esc(s@.subrange(0, i as int)),
        decreases n - i,
    {
        proof {
            assert(s@.subrange(0, i + 1).drop_last() =~= s@.subrange(0, i as int));
            assert(s@.subrange(0, i + 1).last() == s@[i as int]);
        }
        let c = chars[i];
        if c == '"' || c == '\\' {
            out.push('\\');
            out.push(c);
        } else {
            out.push(c);
        }
        proof {
            assert(out@ =~= old(out)@ + seq!['"'] + esc(s@.subrange(0, i + 1)));
        }
        i = i + 1;
    }
    out.push('"');
    proof {
        assert(s@.subrange(0, n as int) =~= s@);
        assert(out@ =~= old(out)@ + ser_str(s@));
    }
}

/// Parse the body of a quoted string from position `i` up to its closing
/// quote: the string read and the position after the quote.
pub open spec fn parse_str_body(s: Seq<char>, i: int) -> Option<(Seq<char>, int)>
    decreases s.len() - i,
{
    if !(0 <= i < s.len()) {
        None
    } else if s[i] == '"' {
        Some((Seq::empty(), i + 1))
    } else if s[i] == '\\' {
        if i + 1 < s.len() && (s[i + 1] == '"' || s[i + 1] == '\\') {
            match parse_str_body(s, i + 2) {
                Some((t, j)) => Some((seq![s[i + 1]] + t, j)),
                None => None,
            }
        } else {
            None
        }
    } else {
        match parse_str_body(s, i + 1) {
            Some((t, j)) => Some((seq![s[i]] + t, j)),
            None => None,
        }
    }
}

/// Parse a quoted string standing at position `i`.
pub open spec fn parse_str(s: Seq<char>, i: int) -> Option<(Seq<char>, int)> {
    if 0 <= i < s.len() && s[i] == '"' {
        parse_str_body(s, i + 1)
    } else {
        None
    }
}

/// A parsed string body ends within the input and after its start.
pub proof fn lemma_parse_str_body_bounds(s: Seq<char>, i: int)
    ensures
        parse_str_body(s, i) matches Some((t, j)) ==> i < j <= s.len(),
    decreases s.len() - i,
{
    if !(0 <= i < s.len()) {
    } else if s[i] == '"' {
    } else if s[i] == '\\' {
        if i + 1 < s.len() && (s[i + 1] == '"' || s[i + 1] == '\\') {
            lemma_parse_str_body_bounds(s, i + 2);
        }
    } else {
        lemma_parse_str_body_bounds(s, i + 1);
    }
}

/// Completeness: where the serializer wrote a string, the parser reads that
/// string back and stops right after its closing quote.
pub proof fn lemma_parse_str_of_ser(s: Seq<char>, i: int, v: Seq<char>)
    requires
        matches_at(s, i, ser_str(v)),
    ensures
        parse_str(s, i) == Some((v, i + ser_str(v).len())),
{
    assert(ser_str(v) =~= seq!['"'] + (esc(v) + seq!['"']));
    lemma_matches_split(s, i, seq!['"'], esc(v) + seq!['"']);
    lemma_matches_char(s, i, '"');
    lemma_parse_body_of_esc(s, i + 1, v);
}

/// Completeness for the body: after the opening quote, the escaped body
/// followed by a quote parses back to the plain string.
proof fn lemma_parse_body_of_esc(s: Seq<char>, i: int, v: Seq<char>)
    requires
        matches_at(s, i, esc(v) + seq!['"']),
    ensures
        parse_str_body(s, i) == Some((v, i + esc(v).len() + 1)),
    decreases v.len(),
{
    if v.len() == 0 {
        assert(esc(v) + seq!['"'] =~= seq!['"']);
        lemma_matches_char(s, i, '"');
    } else {
        lemma_esc_front(v);
        let c = v[0];
        let rest = v.subrange(1, v.len() as int);
        assert(esc(v) + seq!['"'] =~= esc_char(c) + (esc(rest) + seq!['"']));
        lemma_matches_split(s, i, esc_char(c), esc(rest) + seq!['"']);
        lemma_parse_body_of_esc(s, i + esc_char(c).len(), rest);
        if c == '"' || c == '\\' {
            assert(esc_char(c) =~= seq!['\\', c]);
            assert(esc_char(c) =~= seq!['\\'] + seq![c]);
            lemma_matches_split(s, i, seq!['\\'], seq![c]);
            lemma_matches_char(s, i, '\\');
            lemma_matches_char(s, i + 1, c);
            assert(parse_str_body(s, i + 2) == Some((rest, i + 2 + esc(rest).len() + 1)));
            assert(seq![s[i + 1]] + rest =~= v);
        } else {
            assert(esc_char(c) =~= seq![c]);
            lemma_matches_char(s, i, c);
            assert(parse_str_body(s, i + 1) == Some((rest, i + 1 + esc(rest).len() + 1)));
            assert(seq![s[i]] + rest =~= v);
        }
    }
}

/// Parse the body of a quoted string, executably.
pub fn scan_str_body(s: &Vec<char>, i: usize) -> (r: Option<(Vec<char>, usize)>)
    ensures
        match (r, parse_str_body(s@, i as int)) {
            (Some((t, j)), Some((st, sj))) => t@ == st && j as int == sj && j <= s@.len(),
            (None, None) => true,
            _ => false,
        },
    decreases s@.len() - i,
{
    proof {
        lemma_parse_str_body_bounds(s@, i as int);
    }
    if i >= s.len() {
        None
    } else {
        let c = s[i];
        if c == '"' {
            Some((Vec::new(), i + 1))
        } else if c == '\\' {
            if i + 1 < s.len() && (s[i + 1] == '"' || s[i + 1] == '\\') {
                let e = s[i + 1];
                match scan_str_body(s, i + 2) {
                    Some((mut t, j)) => {
                        t.insert(0, e);
                        proof {
                            assert(t@ =~= seq![s@[i + 1]] + t@.subrange(1, t@.len() as int));
                            assert(t@.subrange(1, t@.len() as int)
                                =~= parse_str_body(s@, i + 2)->Some_0.0);
                        }
                        Some((t, j))
                    },
                    None => None,
                }
            } else {
                None
            }
        } else {
            match scan_str_body(s, i + 1) {
                Some((mut t, j)) => {
                    t.insert(0, c);
                    proof {
                        assert(t@ =~= seq![s@[i as int]] + t@.subrange(1, t@.len() as int));
                        assert(t@.subrange(1, t@.len() as int) =~= parse_str_body(
                            s@,
                            i + 1,
                        )->Some_0.0);
                    }
                    Some((t, j))
                },
                None => None,
            }
        }
    }
}

/// One written map entry: quoted key, colon, quoted value.
pub open spec fn ser_strmap_entry(p: (Seq<char>, Seq<char>)) -> Seq<char> {
    ser_str(p.0) + seq![':'] + ser_str(p.1)
}

/// The written entry list, comma separated.
pub open spec fn ser_strmap_entries(m: Seq<(Seq<char>, Seq<char>)>) -> Seq<char>
    decreases m.len(),
{
    if m.len() == 0 {
        Seq::empty()
    } else if m.len() == 1 {
        ser_strmap_entry(m[0])
    } else {
        ser_strmap_entries(m.drop_last()) + seq![','] + ser_strmap_entry(m.last())
    }
}

/// A whole written map: the entries between braces.
pub open spec fn ser_strmap(m: Seq<(Seq<char>, Seq<char>)>) -> Seq<char> {
    seq!['{'] + ser_strmap_entries(m) + seq!['}']
}

/// The entry list also unfolds from the front.
proof fn lemma_strmap_entries_front(m: Seq<(Seq<char>, Seq<char>)>)
    requires
        m.len() >= 2,
    ensures
        ser_strmap_entries(m) == ser_strmap_entry(m[0]) + seq![','] + ser_strmap_entries(
            m.subrange(1, m.len() as int),
        ),
    decreases m.len(),
{
    let t = m.subrange(1, m.len() as int);
    if m.len() == 2 {
        assert(m.drop_last() =~= seq![m[0]]);
        assert(ser_strmap_entries(seq![m[0]]) == ser_strmap_entry(m[0]));
        assert(t =~= seq![m[1]]);
        assert(ser_strmap_entries(t) == ser_strmap_entry(m[1]));
    } else {
        lemma_strmap_entries_front(m.drop_last());
        assert(m.drop_last()[0] == m[0]);
        assert(m.drop_last().subrange(1, m.len() - 1) =~= t.drop_last());
        assert(t.last() == m.last());
        assert(ser_strmap_entry(m[0]) + seq![','] + ser_strmap_entries(t.drop_last()) + seq![',']
            + ser_strmap_entry(m.last()) =~= ser_strmap_entry(m[0]) + seq![','] + (
        ser_strmap_entries(t.drop_last()) + seq![','] + ser_strmap_entry(t.last())));
    }
}

/// Parse a comma separated entry list ending right before a closing brace.
pub open spec fn parse_strmap_entries(s: Seq<char>, i: int) -> Option<
    (Seq<(Seq<char>, Seq<char>)>, int),
>
    decreases s.len() - i,
{
    match parse_str(s, i) {
        None => None,
        Some((k, j)) => {
            if !(j < s.len() && s[j] == ':') {
                None
            } else {
                match parse_str(s, j + 1) {
                    None => None,
                    Some((v, j2)) => {
                        if j2 < s.len() && s[j2] == ',' {
                            if j2 + 1 > i {
                                match parse_strmap_entries(s, j2 + 1) {
                                    Some((m, j3)) => Some((seq![(k, v)] + m, j3)),
                                    None => None,
                                }
                            } else {
                                None
                            }
                        } else if j2 < s.len() && s[j2] == '}' {
                            Some((seq![(k, v)], j2 + 1))
                        } else {
                            None
                        }
                    },
                }
            }
        },
    }
}

/// Parse a whole written map standing at position `i`; a map binding a key
/// twice is rejected.
pub open spec fn parse_strmap(s: Seq<char>, i: int) -> Option<
    (Seq<(Seq<char>, Seq<char>)>, int),
> {
    if !(0 <= i < s.len() && s[i] == '{') {
        None
    } else if i + 1 < s.len() && s[i + 1] == '}' {
        Some((Seq::empty(), i + 2))
    } else {
        match parse_strmap_entries(s, i + 1) {
            Some((m, j)) => {
                if crate::assoc::unique_keys(m) {
                    Some((m, j))
                } else {
                    None
                }
            },
            None => None,
        }
    }
}

/// A parsed map document: the whole input is one written map.
pub open spec fn parse_strmap_doc(s: Seq<char>) -> Option<Seq<(Seq<char>, Seq<char>)>> {
    match parse_strmap(s, 0) {
        Some((m, j)) => {
            if j == s.len() {
                Some(m)
            } else {
                None
            }
        },
        None => None,
    }
}

/// Completeness for entry lists: a written entry list followed by the
/// closing brace parses back to its entries.
proof fn lemma_parse_entries_of_ser(s: Seq<char>, i: int, m: Seq<(Seq<char>, Seq<char>)>)
    requires
        m.len() >= 1,
        matches_at(s, i, ser_strmap_entries(m) + seq!['}']),
    ensures
        parse_strmap_entries(s, i) == Some((m, i + ser_strmap_entries(m).len() + 1)),
    decreases m.len(),
{
    let k = m[0].0;
    let v = m[0].1;
    if m.len() == 1 {
        let e = ser_strmap_entry(m[0]);
        assert(e + seq!['}'] =~= ser_str(k) + (seq![':'] + (ser_str(v) + seq!['}'])));
        assert(ser_strmap_entries(m) + seq!['}'] =~= e + seq!['}']);
        lemma_matches_split(s, i, ser_str(k), seq![':'] + (ser_str(v) + seq!['}']));
        lemma_parse_str_of_ser(s, i, k);
        let j = i + ser_str(k).len();
        lemma_matches_split(s, j, seq![':'], ser_str(v) + seq!['}']);
        lemma_matches_char(s, j, ':');
        lemma_matches_split(s, j + 1, ser_str(v), seq!['}']);
        lemma_parse_str_of_ser(s, j + 1, v);
        let j2 = j + 1 + ser_str(v).len();
        lemma_matches_char(s, j2, '}');
        assert(seq![(k, v)] =~= m);
    } else {
        lemma_strmap_entries_front(m);
        let t = m.subrange(1, m.len() as int);
        let e = ser_strmap_entry(m[0]);
        assert(ser_strmap_entries(m) + seq!['}'] =~= ser_str(k) + (seq![':'] + (ser_str(v) + (
        seq![','] + (ser_strmap_entries(t) + seq!['}'])))));
        lemma_matches_split(s, i, ser_str(k), seq![':'] + (ser_str(v) + (seq![','] + (
        ser_strmap_entries(t) + seq!['}']))));
        lemma_parse_str_of_ser(s, i, k);
        let j = i + ser_str(k).len();
        lemma_matches_split(s, j, seq![':'], ser_str(v) + (seq![','] + (ser_strmap_entries(t)
            + seq!['}'])));
        lemma_matches_char(s, j, ':');
        lemma_matches_split(s, j + 1, ser_str(v), seq![','] + (ser_strmap_entries(t) + seq!['}']));
        lemma_parse_str_of_ser(s, j + 1, v);
        let j2 = j + 1 + ser_str(v).len();
        lemma_matches_split(s, j2, seq![','], ser_strmap_entries(t) + seq!['}']);
        lemma_matches_char(s, j2, ',');
        lemma_parse_entries_of_ser(s, j2 + 1, t);
        assert(seq![(k, v)] + t =~= m);
    }
}

/// Completeness: a written map parses back to its entries.
pub proof fn lemma_parse_strmap_of_ser(s: Seq<char>, i: int, m: Seq<(Seq<char>, Seq<char>)>)
    requires
        crate::assoc::unique_keys(m),
        matches_at(s, i, ser_strmap(m)),
    ensures
        parse_strmap(s, i) == Some((m, i + ser_strmap(m).len())),
{
    assert(ser_strmap(m) =~= seq!['{'] + (ser_strmap_entries(m) + seq!['}']));
    lemma_matches_split(s, i, seq!['{'], ser_strmap_entries(m) + seq!['}']);
    lemma_matches_char(s, i, '{');
    if m.len() == 0 {
        assert(ser_strmap_entries(m) + seq!['}'] =~= seq!['}']);
        lemma_matches_char(s, i + 1, '}');
    } else {
        let first = ser_strmap_entries(m);
        assert(first.len() >= 1 && first[0] == '"') by {
            if m.len() == 1 {
                assert(first == ser_strmap_entry(m[0]));
                assert(first[0] == (ser_str(m[0].0) + seq![':'] + ser_str(m[0].1))[0]);
                assert(ser_str(m[0].0)[0] == '"');
            } else {
                lemma_strmap_entries_front(m);
                assert(first[0] == ser_strmap_entry(m[0])[0]);
                assert(ser_str(m[0].0)[0] == '"');
            }
        }
        assert(matches_at(s, i + 1, first + seq!['}']));
        assert(s[i + 1] == '"') by {
            assert(s.subrange(i + 1, i + 1 + (first + seq!['}']).len())[0] == (first
                + seq!['}'])[0]);
        }
        lemma_parse_entries_of_ser(s, i + 1, m);
    }
}

/// Round trip: any uniquely keyed map is read back exactly from its
/// written form.
pub proof fn lemma_strmap_round_trip(m: Seq<(Seq<char>, Seq<char>)>)
    requires
        crate::assoc::unique_keys(m),
    ensures
        parse_strmap_doc(ser_strmap(m)) == Some(m),
{
    let s = ser_strmap(m);
    assert(s.subrange(0, s.len() as int) =~= s);
    lemma_parse_strmap_of_ser(s, 0, m);
}

/// Parse a quoted string, executably.
pub fn scan_str(s: &Vec<char>, i: usize) -> (r: Option<(Vec<char>, usize)>)
    ensures
        match (r, parse_str(s@, i as int)) {
            (Some((t, j)), Some((st, sj))) => t@ == st && j as int == sj && j <= s@.len(),
            (None, None) => true,
            _ => false,
        },
{
    if i < s.len() && s[i] == '"' {
        scan_str_body(s, i + 1)
    } else {
        None
    }
}

/// Whether a parsed map binds some key twice.
pub fn pairs_keys_unique(v: &Vec<(String, String)>) -> (r: bool)
    ensures
        r == crate::assoc::unique_keys(channels_view(v@)),
{
    proof {
        crate::response::lemma_channels_view(v@);
    }
    let n = v.len();
    let mut i: usize = 0;
    while i < n
        invariant
            n == v@.len(),
            i <= n,
            forall|a: int, b: int|
                0 <= a < b < n && a < i ==> channels_view(v@)[a].0 != channels_view(v@)[b].0,
        decreases n - i,
    {
        let mut j: usize = i + 1;
        while j < n
            invariant
                n == v@.len(),
                i < j || j == i + 1,
                i < n,
                i + 1 <= j <= n,
                forall|a: int, b: int|
                    0 <= a < b < n && a < i ==> channels_view(v@)[a].0 != channels_view(v@)[b].0,
                forall|b: int| i < b < j ==> channels_view(v@)[i as int].0 != channels_view(
                    v@,
                )[b].0,
            decreases n - j,
        {
            if str_eq(v[i].0.as_str(), v[j].0.as_str()) {
                proof {
                    crate::response::lemma_channels_view(v@);
                    assert(channels_view(v@)[i as int].0 == channels_view(v@)[j as int].0);
                }
                return false;
            }
            proof {
                crate::response::lemma_channels_view(v@);
            }
            j = j + 1;
        }
        i = i + 1;
    }
    true
}

/// Parse a comma separated entry list, executably.
fn scan_strmap_entries(s: &Vec<char>, i: usize) -> (r: Option<(Vec<(String, String)>, usize)>)
    ensures
        match (r, parse_strmap_entries(s@, i as int)) {
            (Some((m, j)), Some((sm, sj))) => channels_view(m@) == sm && j as int == sj && j
                <= s@.len(),
            (None, None) => true,
            _ => false,
        },
    decreases s@.len() - i,
{
    match scan_str(s, i) {
        None => None,
        Some((kc, j)) => {
            if !(j < s.len() && s[j] == ':') {
                None
            } else {
                match scan_str(s, j + 1) {
                    None => None,
                    Some((vc, j2)) => {
                        let k = chars_to_string(&kc);
                        let v = chars_to_string(&vc);
                        if j2 < s.len() && s[j2] == ',' {
                            if j2 + 1 > i {
                                match scan_strmap_entries(s, j2 + 1) {
                                    Some((mut m, j3)) => {
                                        let ghost mv = channels_view(m@);
                                        m.insert(0, (k, v));
                                        proof {
                                            crate::response::lemma_channels_view(m@);
                                            assert(channels_view(m@) =~= seq![
                                                (k@, v@),
                                            ] + mv);
                                        }
                                        Some((m, j3))
                                    },
                                    None => None,
                                }
                            } else {
                                None
                            }
                        } else if j2 < s.len() && s[j2] == '}' {
                            let mut m: Vec<(String, String)> = Vec::new();
                            m.push((k, v));
                            proof {
                                crate::response::lemma_channels_view(m@);
                                assert(channels_view(m@) =~= seq![(k@, v@)]);
                            }
                            Some((m, j2 + 1))
                        } else {
                            None
                        }
                    },
                }
            }
        },
    }
}

/// Parse a whole written map, executably.
pub fn scan_strmap(s: &Vec<char>, i: usize) -> (r: Option<(Vec<(String, String)>, usize)>)
    ensures
        match (r, parse_strmap(s@, i as int)) {
            (Some((m, j)), Some((sm, sj))) => channels_view(m@) == sm && j as int == sj && j
                <= s@.len(),
            (None, None) => true,
            _ => false,
        },
{
    if !(i < s.len() && s[i] == '{') {
        None
    } else if i + 1 < s.len() && s[i + 1] == '}' {
        let m: Vec<(String, String)> = Vec::new();
        proof {
            crate::response::lemma_channels_view(m@);
            assert(channels_view(m@) =~= Seq::<(Seq<char>, Seq<char>)>::empty());
        }
        Some((m, i + 2))
    } else {
        match scan_strmap_entries(s, i + 1) {
            Some((m, j)) => {
                if pairs_keys_unique(&m) {
                    Some((m, j))
                } else {
                    None
                }
            },
            None => None,
        }
    }
}

/// Turn a table of string pairs into its written form.
pub fn serialize_hashmap(map: &Vec<(String, String)>) -> (r: String)
    ensures
        r@ == ser_strmap(channels_view(map@)),
{
    let ghost cv = channels_view(map@);
    proof {
        crate::response::lemma_channels_view(map@);
    }
    let mut out: Vec<char> = Vec::new();
    out.push('{');
    let n = map.len();
    let mut i: usize = 0;
    while i < n
        invariant
            n == map@.len(),
            cv.len() == n,
            i <= n,
            forall|j: int| 0 <= j < n ==> #[trigger] cv[j] == (map@[j].0@, map@[j].1@),
            out@ == seq!['{'] + ser_strmap_entries(cv.subrange(0, i as int)),
        decreases n - i,
    {
        proof {
            assert(cv.subrange(0, i + 1).drop_last() =~= cv.subrange(0, i as int));
            assert(cv.subrange(0, i + 1).last() == cv[i as int]);
            if i == 0 {
                assert(cv.subrange(0, 1)[0] == cv[0]);
            }
        }
        if i > 0 {
            out.push(',');
        }
        write_str(&mut out, map[i].0.as_str());
        out.push(':');
        write_str(&mut out, map[i].1.as_str());
        proof {
            assert(out@ =~= seq!['{'] + ser_strmap_entries(cv.subrange(0, i + 1)));
        }
        i = i + 1;
    }
    out.push('}');
    proof {
        assert(cv.subrange(0, n as int) =~= cv);
        assert(out@ =~= ser_strmap(cv));
    }
    chars_to_string(&out)
}

/// Read a table of string pairs back from its written form; any other text
/// yields nothing.
pub fn deserialize_hashmap(string: &str) -> (r: Option<Vec<(String, String)>>)
    ensures
        match (r, parse_strmap_doc(string@)) {
            (Some(m), Some(sm)) => channels_view(m@) == sm && crate::assoc::unique_keys(
                channels_view(m@),
            ),
            (None, None) => true,
            _ => false,
        },
{
    let chars = str_to_chars(string);
    match scan_strmap(&chars, 0) {
        Some((m, j)) => {
            if j == chars.len() {
                Some(m)
            } else {
                None
            }
        },
        None => None,
    }
}


/// A decimal digit.
pub open spec fn is_digit(c: char) -> bool {
    '0' <= c && c <= '9'
}

/// The digit character for a value below ten.
pub open spec fn digit_char(k: int) -> char {
    if k == 0 {
        '0'
    } else if k == 1 {
        '1'
    } else if k == 2 {
        '2'
    } else if k == 3 {
        '3'
    } else if k == 4 {
        '4'
    } else if k == 5 {
        '5'
    } else if k == 6 {
        '6'
    } else if k == 7 {
        '7'
    } else if k == 8 {
        '8'
    } else {
        '9'
    }
}

/// The value of a digit character.
pub open spec fn digit_val(c: char) -> int {
    if c == '0' {
        0
    } else if c == '1' {
        1
    } else if c == '2' {
        2
    } else if c == '3' {
        3
    } else if c == '4' {
        4
    } else if c == '5' {
        5
    } else if c == '6' {
        6
    } else if c == '7' {
        7
    } else if c == '8' {
        8
    } else {
        9
    }
}

/// The decimal form of a natural number, most significant digit first.
pub open spec fn dec_nat(n: nat) -> Seq<char>
    decreases n,
{
    if n < 10 {
        seq![digit_char(n as int)]
    } else {
        dec_nat(n / 10).push(digit_char((n % 10) as int))
    }
}

/// The written form of an integer: a minus sign for negatives, then the
/// decimal digits.
pub open spec fn ser_int(i: int) -> Seq<char> {
    if i < 0 {
        seq!['-'] + dec_nat((-i) as nat)
    } else {
        dec_nat(i as nat)
    }
}

/// The position of the first non-digit at or after `i`.
pub open spec fn digits_end(s: Seq<char>, i: int) -> int
    decreases s.len() - i,
{
    if 0 <= i < s.len() && is_digit(s[i]) {
        digits_end(s, i + 1)
    } else {
        i
    }
}

/// The value of a digit string.
pub open spec fn nat_of_digits(d: Seq<char>) -> nat
    decreases d.len(),
{
    if d.len() == 0 {
        0nat
    } else {
        (10 * nat_of_digits(d.drop_last()) + digit_val(d.last())) as nat
    }
}

/// Parse an integer standing at position `i`: as many digits as stand
/// there, rejected when none stand there or the value leaves the 32-bit
/// signed range.
pub open spec fn parse_int(s: Seq<char>, i: int) -> Option<(int, int)> {
    if !(0 <= i < s.len()) {
        None
    } else if s[i] == '-' {
        let e = digits_end(s, i + 1);
        if e == i + 1 {
            None
        } else {
            let v = nat_of_digits(s.subrange(i + 1, e));
            if v <= 0x8000_0000 {
                Some((-(v as int), e))
            } else {
                None
            }
        }
    } else {
        let e = digits_end(s, i);
        if e == i {
            None
        } else {
            let v = nat_of_digits(s.subrange(i, e));
            if v <= 0x7fff_ffff {
                Some((v as int, e))
            } else {
                None
            }
        }
    }
}

/// A written number is digits only, and at least one.
proof fn lemma_dec_nat_digits(n: nat)
    ensures
        dec_nat(n).len() >= 1,
        forall|j: int| 0 <= j < dec_nat(n).len() ==> is_digit(#[trigger] dec_nat(n)[j]),
    decreases n,
{
    if n < 10 {
    } else {
        lemma_dec_nat_digits(n / 10);
    }
}

/// A digit run bounded by a non-digit pins `digits_end`.
proof fn lemma_digits_end_pin(s: Seq<char>, i: int, e: int)
    requires
        0 <= i <= e <= s.len(),
        forall|j: int| i <= j < e ==> is_digit(#[trigger] s[j]),
        e == s.len() || !is_digit(s[e]),
    ensures
        digits_end(s, i) == e,
    decreases e - i,
{
    if i == e {
    } else {
        lemma_digits_end_pin(s, i + 1, e);
    }
}

/// Reading a written number back gives the number.
proof fn lemma_nat_of_dec(n: nat)
    ensures
        nat_of_digits(dec_nat(n)) == n,
    decreases n,
{
    if n < 10 {
        assert(dec_nat(n).drop_last() =~= Seq::<char>::empty());
        assert(nat_of_digits(Seq::<char>::empty()) == 0);
        assert(dec_nat(n).last() == digit_char(n as int));
        assert(digit_val(digit_char(n as int)) == n);
    } else {
        lemma_nat_of_dec(n / 10);
        assert(dec_nat(n).drop_last() =~= dec_nat(n / 10));
        assert(dec_nat(n).last() == digit_char((n % 10) as int));
        assert(digit_val(digit_char((n % 10) as int)) == n % 10);
        assert(nat_of_digits(dec_nat(n)) == 10 * (n / 10) + n % 10);
        assert(10 * (n / 10) + n % 10 == n) by {
            vstd::arithmetic::div_mod::lemma_fundamental_div_mod(n as int, 10);
        }
    }
}

/// Completeness: a written in-range integer, followed by something that is
/// not a digit, parses back to the integer.
pub proof fn lemma_parse_int_of_ser(s: Seq<char>, i: int, v: int)
    requires
        -0x8000_0000 <= v <= 0x7fff_ffff,
        matches_at(s, i, ser_int(v)),
        i + ser_int(v).len() == s.len() || !is_digit(s[i + ser_int(v).len()]),
    ensures
        parse_int(s, i) == Some((v, i + ser_int(v).len())),
{
    if v < 0 {
        let d = dec_nat((-v) as nat);
        lemma_dec_nat_digits((-v) as nat);
        assert(ser_int(v) =~= seq!['-'] + d);
        lemma_matches_split(s, i, seq!['-'], d);
        lemma_matches_char(s, i, '-');
        assert forall|j: int| i + 1 <= j < i + 1 + d.len() implies is_digit(#[trigger] s[j]) by {
            assert(s.subrange(i + 1, i + 1 + d.len())[j - i - 1] == d[j - i - 1]);
        }
        lemma_digits_end_pin(s, i + 1, i + 1 + d.len());
        assert(s.subrange(i + 1, i + 1 + d.len()) == d);
        lemma_nat_of_dec((-v) as nat);
    } else {
        let d = dec_nat(v as nat);
        lemma_dec_nat_digits(v as nat);
        assert(matches_at(s, i, d));
        assert forall|j: int| i <= j < i + d.len() implies is_digit(#[trigger] s[j]) by {
            assert(s.subrange(i, i + d.len())[j - i] == d[j - i]);
        }
        assert(s[i] == d[0]) by {
            assert(s.subrange(i, i + d.len())[0] == d[0]);
        }
        assert(s[i] != '-');
        lemma_digits_end_pin(s, i, i + d.len());
        assert(s.subrange(i, i + d.len()) == d);
        lemma_nat_of_dec(v as nat);
    }
}

/// The written entry list of a byte array.
pub open spec fn bytes_entries(b: Seq<u8>) -> Seq<char>
    decreases b.len(),
{
    if b.len() == 0 {
        Seq::empty()
    } else if b.len() == 1 {
        ser_int(b[0] as int)
    } else {
        bytes_entries(b.drop_last()) + seq![','] + ser_int(b.last() as int)
    }
}

/// A written byte array: its decimal values between brackets.
pub open spec fn ser_bytes(b: Seq<u8>) -> Seq<char> {
    seq!['['] + bytes_entries(b) + seq![']']
}

/// The byte entry list also unfolds from the front.
proof fn lemma_bytes_entries_front(b: Seq<u8>)
    requires
        b.len() >= 2,
    ensures
        bytes_entries(b) == ser_int(b[0] as int) + seq![','] + bytes_entries(
            b.subrange(1, b.len() as int),
        ),
    decreases b.len(),
{
    let t = b.subrange(1, b.len() as int);
    if b.len() == 2 {
        assert(b.drop_last() =~= seq![b[0]]);
        assert(bytes_entries(seq![b[0]]) == ser_int(b[0] as int));
        assert(t =~= seq![b[1]]);
        assert(bytes_entries(t) == ser_int(b[1] as int));
    } else {
        lemma_bytes_entries_front(b.drop_last());
        assert(b.drop_last()[0] == b[0]);
        assert(b.drop_last().subrange(1, b.len() - 1) =~= t.drop_last());
        assert(t.last() == b.last());
        assert(ser_int(b[0] as int) + seq![','] + bytes_entries(t.drop_last()) + seq![',']
            + ser_int(b.last() as int) =~= ser_int(b[0] as int) + seq![','] + (bytes_entries(
            t.drop_last(),
        ) + seq![','] + ser_int(t.last() as int)));
    }
}

/// Parse a comma separated byte list ending right before a closing
/// bracket.
pub open spec fn parse_bytes_entries(s: Seq<char>, i: int) -> Option<(Seq<u8>, int)>
    decreases s.len() - i,
{
    match parse_int(s, i) {
        None => None,
        Some((v, j)) => {
            if !(0 <= v <= 255) {
                None
            } else if j < s.len() && s[j] == ',' {
                if j + 1 > i {
                    match parse_bytes_entries(s, j + 1) {
                        Some((m, j2)) => Some((seq![v as u8] + m, j2)),
                        None => None,
                    }
                } else {
                    None
                }
            } else if j < s.len() && s[j] == ']' {
                Some((seq![v as u8], j + 1))
            } else {
                None
            }
        },
    }
}

/// Parse a written byte array standing at position `i`.
pub open spec fn parse_bytes(s: Seq<char>, i: int) -> Option<(Seq<u8>, int)> {
    if !(0 <= i < s.len() && s[i] == '[') {
        None
    } else if i + 1 < s.len() && s[i + 1] == ']' {
        Some((Seq::empty(), i + 2))
    } else {
        parse_bytes_entries(s, i + 1)
    }
}

/// Completeness for byte lists.
proof fn lemma_parse_bytes_entries_of_ser(s: Seq<char>, i: int, b: Seq<u8>)
    requires
        b.len() >= 1,
        matches_at(s, i, bytes_entries(b) + seq![']']),
    ensures
        parse_bytes_entries(s, i) == Some((b, i + bytes_entries(b).len() + 1)),
    decreases b.len(),
{
    let v = b[0] as int;
    if b.len() == 1 {
        assert(bytes_entries(b) + seq![']'] =~= ser_int(v) + seq![']']);
        lemma_matches_split(s, i, ser_int(v), seq![']']);
        let j = i + ser_int(v).len();
        lemma_matches_char(s, j, ']');
        lemma_parse_int_of_ser(s, i, v);
        assert(seq![b[0]] =~= b);
    } else {
        lemma_bytes_entries_front(b);
        let t = b.subrange(1, b.len() as int);
        assert(bytes_entries(b) + seq![']'] =~= ser_int(v) + (seq![','] + (bytes_entries(t)
            + seq![']'])));
        lemma_matches_split(s, i, ser_int(v), seq![','] + (bytes_entries(t) + seq![']']));
        let j = i + ser_int(v).len();
        lemma_matches_split(s, j, seq![','], bytes_entries(t) + seq![']']);
        lemma_matches_char(s, j, ',');
        lemma_parse_int_of_ser(s, i, v);
        lemma_parse_bytes_entries_of_ser(s, j + 1, t);
        assert(seq![b[0]] + t =~= b);
    }
}

/// Completeness: a written byte array parses back to its bytes.
proof fn lemma_parse_bytes_of_ser(s: Seq<char>, i: int, b: Seq<u8>)
    requires
        matches_at(s, i, ser_bytes(b)),
    ensures
        parse_bytes(s, i) == Some((b, i + ser_bytes(b).len())),
{
    assert(ser_bytes(b) =~= seq!['['] + (bytes_entries(b) + seq![']']));
    lemma_matches_split(s, i, seq!['['], bytes_entries(b) + seq![']']);
    lemma_matches_char(s, i, '[');
    if b.len() == 0 {
        assert(bytes_entries(b) + seq![']'] =~= seq![']']);
        lemma_matches_char(s, i + 1, ']');
    } else {
        let first = bytes_entries(b);
        assert(first.len() >= 1 && first[0] != ']') by {
            lemma_dec_nat_digits(if b[0] as int >= 0 { b[0] as nat } else { 0nat });
            if b.len() == 1 {
                assert(first == ser_int(b[0] as int));
                assert(first[0] == dec_nat(b[0] as nat)[0]);
                assert(is_digit(first[0]));
            } else {
                lemma_bytes_entries_front(b);
                assert(first[0] == ser_int(b[0] as int)[0]);
                assert(first[0] == dec_nat(b[0] as nat)[0]);
                assert(is_digit(first[0]));
            }
        }
        assert(s[i + 1] != ']') by {
            assert(s.subrange(i + 1, i + 1 + (first + seq![']']).len())[0] == (first
                + seq![']'])[0]);
        }
        lemma_parse_bytes_entries_of_ser(s, i + 1, b);
    }
}

/// The written entry list of a string list.
pub open spec fn strlist_entries(v: Seq<Seq<char>>) -> Seq<char>
    decreases v.len(),
{
    if v.len() == 0 {
        Seq::empty()
    } else if v.len() == 1 {
        ser_str(v[0])
    } else {
        strlist_entries(v.drop_last()) + seq![','] + ser_str(v.last())
    }
}

/// A written string list: its quoted strings between brackets.
pub open spec fn ser_strlist(v: Seq<Seq<char>>) -> Seq<char> {
    seq!['['] + strlist_entries(v) + seq![']']
}

/// The string entry list also unfolds from the front.
proof fn lemma_strlist_entries_front(v: Seq<Seq<char>>)
    requires
        v.len() >= 2,
    ensures
        strlist_entries(v) == ser_str(v[0]) + seq![','] + strlist_entries(
            v.subrange(1, v.len() as int),
        ),
    decreases v.len(),
{
    let t = v.subrange(1, v.len() as int);
    if v.len() == 2 {
        assert(v.drop_last() =~= seq![v[0]]);
        assert(strlist_entries(seq![v[0]]) == ser_str(v[0]));
        assert(t =~= seq![v[1]]);
        assert(strlist_entries(t) == ser_str(v[1]));
    } else {
        lemma_strlist_entries_front(v.drop_last());
        assert(v.drop_last()[0] == v[0]);
        assert(v.drop_last().subrange(1, v.len() - 1) =~= t.drop_last());
        assert(t.last() == v.last());
        assert(ser_str(v[0]) + seq![','] + strlist_entries(t.drop_last()) + seq![','] + ser_str(
            v.last(),
        ) =~= ser_str(v[0]) + seq![','] + (strlist_entries(t.drop_last()) + seq![','] + ser_str(
            t.last(),
        )));
    }
}

/// Parse a comma separated string list ending right before a closing
/// bracket.
pub open spec fn parse_strlist_entries(s: Seq<char>, i: int) -> Option<(Seq<Seq<char>>, int)>
    decreases s.len() - i,
{
    match parse_str(s, i) {
        None => None,
        Some((v, j)) => {
            if j < s.len() && s[j] == ',' {
                if j + 1 > i {
                    match parse_strlist_entries(s, j + 1) {
                        Some((m, j2)) => Some((seq![v] + m, j2)),
                        None => None,
                    }
                } else {
                    None
                }
            } else if j < s.len() && s[j] == ']' {
                Some((seq![v], j + 1))
            } else {
                None
            }
        },
    }
}

/// Parse a written string list standing at position `i`.
pub open spec fn parse_strlist(s: Seq<char>, i: int) -> Option<(Seq<Seq<char>>, int)> {
    if !(0 <= i < s.len() && s[i] == '[') {
        None
    } else if i + 1 < s.len() && s[i + 1] == ']' {
        Some((Seq::empty(), i + 2))
    } else {
        parse_strlist_entries(s, i + 1)
    }
}

/// Completeness for string lists' entries.
proof fn lemma_parse_strlist_entries_of_ser(s: Seq<char>, i: int, v: Seq<Seq<char>>)
    requires
        v.len() >= 1,
        matches_at(s, i, strlist_entries(v) + seq![']']),
    ensures
        parse_strlist_entries(s, i) == Some((v, i + strlist_entries(v).len() + 1)),
    decreases v.len(),
{
    if v.len() == 1 {
        assert(strlist_entries(v) + seq![']'] =~= ser_str(v[0]) + seq![']']);
        lemma_matches_split(s, i, ser_str(v[0]), seq![']']);
        let j = i + ser_str(v[0]).len();
        lemma_matches_char(s, j, ']');
        lemma_parse_str_of_ser(s, i, v[0]);
        assert(seq![v[0]] =~= v);
    } else {
        lemma_strlist_entries_front(v);
        let t = v.subrange(1, v.len() as int);
        assert(strlist_entries(v) + seq![']'] =~= ser_str(v[0]) + (seq![','] + (strlist_entries(t)
            + seq![']'])));
        lemma_matches_split(s, i, ser_str(v[0]), seq![','] + (strlist_entries(t) + seq![']']));
        let j = i + ser_str(v[0]).len();
        lemma_matches_split(s, j, seq![','], strlist_entries(t) + seq![']']);
        lemma_matches_char(s, j, ',');
        lemma_parse_str_of_ser(s, i, v[0]);
        lemma_parse_strlist_entries_of_ser(s, j + 1, t);
        assert(seq![v[0]] + t =~= v);
    }
}

/// Completeness: a written string list parses back to its strings.
proof fn lemma_parse_strlist_of_ser(s: Seq<char>, i: int, v: Seq<Seq<char>>)
    requires
        matches_at(s, i, ser_strlist(v)),
    ensures
        parse_strlist(s, i) == Some((v, i + ser_strlist(v).len())),
{
    assert(ser_strlist(v) =~= seq!['['] + (strlist_entries(v) + seq![']']));
    lemma_matches_split(s, i, seq!['['], strlist_entries(v) + seq![']']);
    lemma_matches_char(s, i, '[');
    if v.len() == 0 {
        assert(strlist_entries(v) + seq![']'] =~= seq![']']);
        lemma_matches_char(s, i + 1, ']');
    } else {
        let first = strlist_entries(v);
        assert(first.len() >= 1 && first[0] == '"') by {
            if v.len() == 1 {
                assert(first == ser_str(v[0]));
                assert(first[0] == '"');
            } else {
                lemma_strlist_entries_front(v);
                assert(first[0] == ser_str(v[0])[0]);
            }
        }
        assert(s[i + 1] == '"') by {
            assert(s.subrange(i + 1, i + 1 + (first + seq![']']).len())[0] == (first
                + seq![']'])[0]);
        }
        lemma_parse_strlist_entries_of_ser(s, i + 1, v);
    }
}

/// The tag under which a field value's variant is written.
pub open spec fn meta_tag(m: MetaV) -> Seq<char> {
    match m {
        MetaV::Text(_) => "Text"@,
        MetaV::Binary(_) => "Binary"@,
        MetaV::TextVec(_) => "TextVec"@,
        MetaV::Int(_) => "Int"@,
    }
}

/// The written payload of a field value.
pub open spec fn meta_payload(m: MetaV) -> Seq<char> {
    match m {
        MetaV::Text(t) => ser_str(t),
        MetaV::Binary(b) => ser_bytes(b),
        MetaV::TextVec(v) => ser_strlist(v),
        MetaV::Int(i) => ser_int(i),
    }
}

/// A written field value: one tagged payload between braces.
pub open spec fn ser_meta(m: MetaV) -> Seq<char> {
    seq!['{'] + ser_str(meta_tag(m)) + seq![':'] + meta_payload(m) + seq!['}']
}

/// Parse a written field value standing at position `i`.
pub open spec fn parse_meta(s: Seq<char>, i: int) -> Option<(MetaV, int)> {
    if !(0 <= i < s.len() && s[i] == '{') {
        None
    } else {
        match parse_str(s, i + 1) {
            None => None,
            Some((tag, j)) => {
                if !(j < s.len() && s[j] == ':') {
                    None
                } else if tag == "Text"@ {
                    match parse_str(s, j + 1) {
                        None => None,
                        Some((t, j2)) => {
                            if j2 < s.len() && s[j2] == '}' {
                                Some((MetaV::Text(t), j2 + 1))
                            } else {
                                None
                            }
                        },
                    }
                } else if tag == "Binary"@ {
                    match parse_bytes(s, j + 1) {
                        None => None,
                        Some((b, j2)) => {
                            if j2 < s.len() && s[j2] == '}' {
                                Some((MetaV::Binary(b), j2 + 1))
                            } else {
                                None
                            }
                        },
                    }
                } else if tag == "TextVec"@ {
                    match parse_strlist(s, j + 1) {
                        None => None,
                        Some((v, j2)) => {
                            if j2 < s.len() && s[j2] == '}' {
                                Some((MetaV::TextVec(v), j2 + 1))
                            } else {
                                None
                            }
                        },
                    }
                } else if tag == "Int"@ {
                    match parse_int(s, j + 1) {
                        None => None,
                        Some((v, j2)) => {
                            if j2 < s.len() && s[j2] == '}' {
                                Some((MetaV::Int(v), j2 + 1))
                            } else {
                                None
                            }
                        },
                    }
                } else {
                    None
                }
            },
        }
    }
}

/// Every parsed field value is in range.
proof fn lemma_parse_meta_wf(s: Seq<char>, i: int)
    ensures
        parse_meta(s, i) matches Some((m, _)) ==> m.wf(),
{
}

/// The four tags are pairwise distinct.
proof fn lemma_meta_tags_distinct()
    ensures
        "Text"@ != "Binary"@,
        "Text"@ != "TextVec"@,
        "Text"@ != "Int"@,
        "Binary"@ != "TextVec"@,
        "Binary"@ != "Int"@,
        "TextVec"@ != "Int"@,
{
    reveal_strlit("Text");
    reveal_strlit("Binary");
    reveal_strlit("TextVec");
    reveal_strlit("Int");
    assert("Text"@.len() == 4 && "Binary"@.len() == 6 && "TextVec"@.len() == 7 && "Int"@.len()
        == 3);
}

/// Completeness: a written in-range field value parses back to itself.
proof fn lemma_parse_meta_of_ser(s: Seq<char>, i: int, m: MetaV)
    requires
        m.wf(),
        matches_at(s, i, ser_meta(m)),
    ensures
        parse_meta(s, i) == Some((m, i + ser_meta(m).len())),
{
    lemma_meta_tags_distinct();
    assert(ser_meta(m) =~= seq!['{'] + (ser_str(meta_tag(m)) + (seq![':'] + (meta_payload(m)
        + seq!['}']))));
    lemma_matches_split(s, i, seq!['{'], ser_str(meta_tag(m)) + (seq![':'] + (meta_payload(m)
        + seq!['}'])));
    lemma_matches_char(s, i, '{');
    lemma_matches_split(
        s,
        i + 1,
        ser_str(meta_tag(m)),
        seq![':'] + (meta_payload(m) + seq!['}']),
    );
    lemma_parse_str_of_ser(s, i + 1, meta_tag(m));
    let j = i + 1 + ser_str(meta_tag(m)).len();
    lemma_matches_split(s, j, seq![':'], meta_payload(m) + seq!['}']);
    lemma_matches_char(s, j, ':');
    lemma_matches_split(s, j + 1, meta_payload(m), seq!['}']);
    let j2 = j + 1 + meta_payload(m).len();
    lemma_matches_char(s, j2, '}');
    match m {
        MetaV::Text(t) => {
            lemma_parse_str_of_ser(s, j + 1, t);
        },
        MetaV::Binary(b) => {
            lemma_parse_bytes_of_ser(s, j + 1, b);
        },
        MetaV::TextVec(v) => {
            lemma_parse_strlist_of_ser(s, j + 1, v);
        },
        MetaV::Int(v) => {
            lemma_parse_int_of_ser(s, j + 1, v);
        },
    }
}

/// The written entry list of a field table.
pub open spec fn metas_entries(m: Seq<(Seq<char>, MetaV)>) -> Seq<char>
    decreases m.len(),
{
    if m.len() == 0 {
        Seq::empty()
    } else if m.len() == 1 {
        ser_str(m[0].0) + seq![':'] + ser_meta(m[0].1)
    } else {
        metas_entries(m.drop_last()) + seq![','] + ser_str(m.last().0) + seq![':'] + ser_meta(
            m.last().1,
        )
    }
}

/// A written field table: quoted names and tagged values between braces.
pub open spec fn ser_metas(m: Seq<(Seq<char>, MetaV)>) -> Seq<char> {
    seq!['{'] + metas_entries(m) + seq!['}']
}

/// The field entry list also unfolds from the front.
proof fn lemma_metas_entries_front(m: Seq<(Seq<char>, MetaV)>)
    requires
        m.len() >= 2,
    ensures
        metas_entries(m) == ser_str(m[0].0) + seq![':'] + ser_meta(m[0].1) + seq![',']
            + metas_entries(m.subrange(1, m.len() as int)),
    decreases m.len(),
{
    let t = m.subrange(1, m.len() as int);
    if m.len() == 2 {
        assert(m.drop_last() =~= seq![m[0]]);
        assert(t =~= seq![m[1]]);
        assert(metas_entries(seq![m[0]]) == ser_str(m[0].0) + seq![':'] + ser_meta(m[0].1));
        assert(metas_entries(t) == ser_str(m[1].0) + seq![':'] + ser_meta(m[1].1));
        assert(metas_entries(m.drop_last()) + seq![','] + ser_str(m.last().0) + seq![':']
            + ser_meta(m.last().1) =~= ser_str(m[0].0) + seq![':'] + ser_meta(m[0].1) + seq![',']
            + metas_entries(t));
    } else {
        lemma_metas_entries_front(m.drop_last());
        assert(m.drop_last()[0] == m[0]);
        assert(m.drop_last().subrange(1, m.len() - 1) =~= t.drop_last());
        assert(t.last() == m.last());
        assert(ser_str(m[0].0) + seq![':'] + ser_meta(m[0].1) + seq![','] + metas_entries(
            t.drop_last(),
        ) + seq![','] + ser_str(m.last().0) + seq![':'] + ser_meta(m.last().1) =~= ser_str(m[0].0)
            + seq![':'] + ser_meta(m[0].1) + seq![','] + (metas_entries(t.drop_last()) + seq![',']
            + ser_str(t.last().0) + seq![':'] + ser_meta(t.last().1)));
    }
}

/// Parse a comma separated field entry list ending right before a closing
/// brace.
pub open spec fn parse_metas_entries(s: Seq<char>, i: int) -> Option<
    (Seq<(Seq<char>, MetaV)>, int),
>
    decreases s.len() - i,
{
    match parse_str(s, i) {
        None => None,
        Some((k, j)) => {
            if !(j < s.len() && s[j] == ':') {
                None
            } else {
                match parse_meta(s, j + 1) {
                    None => None,
                    Some((v, j2)) => {
                        if j2 < s.len() && s[j2] == ',' {
                            if j2 + 1 > i {
                                match parse_metas_entries(s, j2 + 1) {
                                    Some((m, j3)) => Some((seq![(k, v)] + m, j3)),
                                    None => None,
                                }
                            } else {
                                None
                            }
                        } else if j2 < s.len() && s[j2] == '}' {
                            Some((seq![(k, v)], j2 + 1))
                        } else {
                            None
                        }
                    },
                }
            }
        },
    }
}

/// Parse a written field table standing at position `i`; a table binding a
/// name twice is rejected.
pub open spec fn parse_metas(s: Seq<char>, i: int) -> Option<(Seq<(Seq<char>, MetaV)>, int)> {
    if !(0 <= i < s.len() && s[i] == '{') {
        None
    } else if i + 1 < s.len() && s[i + 1] == '}' {
        Some((Seq::empty(), i + 2))
    } else {
        match parse_metas_entries(s, i + 1) {
            Some((m, j)) => {
                if crate::assoc::unique_keys(m) {
                    Some((m, j))
                } else {
                    None
                }
            },
            None => None,
        }
    }
}

/// Every value of a parsed field entry list is in range.
proof fn lemma_parse_metas_entries_wf(s: Seq<char>, i: int)
    ensures
        parse_metas_entries(s, i) matches Some((m, _)) ==> forall|k: int|
            0 <= k < m.len() ==> (#[trigger] m[k]).1.wf(),
    decreases s.len() - i,
{
    match parse_str(s, i) {
        None => {},
        Some((k, j)) => {
            if j < s.len() && s[j] == ':' {
                match parse_meta(s, j + 1) {
                    None => {},
                    Some((v, j2)) => {
                        lemma_parse_meta_wf(s, j + 1);
                        if j2 < s.len() && s[j2] == ',' && j2 + 1 > i {
                            lemma_parse_metas_entries_wf(s, j2 + 1);
                            match parse_metas_entries(s, j2 + 1) {
                                Some((m, _)) => {
                                    assert forall|q: int|
                                        0 <= q < (seq![(k, v)] + m).len() implies (#[trigger] (
                                    seq![(k, v)] + m)[q]).1.wf() by {
                                        if q > 0 {
                                            assert((seq![(k, v)] + m)[q] == m[q - 1]);
                                        }
                                    }
                                },
                                None => {},
                            }
                        }
                    },
                }
            }
        },
    }
}

/// Completeness for field entry lists.
proof fn lemma_parse_metas_entries_of_ser(s: Seq<char>, i: int, m: Seq<(Seq<char>, MetaV)>)
    requires
        m.len() >= 1,
        forall|k: int| 0 <= k < m.len() ==> (#[trigger] m[k]).1.wf(),
        matches_at(s, i, metas_entries(m) + seq!['}']),
    ensures
        parse_metas_entries(s, i) == Some((m, i + metas_entries(m).len() + 1)),
    decreases m.len(),
{
    let k = m[0].0;
    let v = m[0].1;
    if m.len() == 1 {
        assert(metas_entries(m) + seq!['}'] =~= ser_str(k) + (seq![':'] + (ser_meta(v)
            + seq!['}'])));
        lemma_matches_split(s, i, ser_str(k), seq![':'] + (ser_meta(v) + seq!['}']));
        lemma_parse_str_of_ser(s, i, k);
        let j = i + ser_str(k).len();
        lemma_matches_split(s, j, seq![':'], ser_meta(v) + seq!['}']);
        lemma_matches_char(s, j, ':');
        lemma_matches_split(s, j + 1, ser_meta(v), seq!['}']);
        lemma_parse_meta_of_ser(s, j + 1, v);
        let j2 = j + 1 + ser_meta(v).len();
        lemma_matches_char(s, j2, '}');
        assert(seq![(k, v)] =~= m);
    } else {
        lemma_metas_entries_front(m);
        let t = m.subrange(1, m.len() as int);
        assert(metas_entries(m) + seq!['}'] =~= ser_str(k) + (seq![':'] + (ser_meta(v) + (
        seq![','] + (metas_entries(t) + seq!['}'])))));
        lemma_matches_split(
            s,
            i,
            ser_str(k),
            seq![':'] + (ser_meta(v) + (seq![','] + (metas_entries(t) + seq!['}']))),
        );
        lemma_parse_str_of_ser(s, i, k);
        let j = i + ser_str(k).len();
        lemma_matches_split(
            s,
            j,
            seq![':'],
            ser_meta(v) + (seq![','] + (metas_entries(t) + seq!['}'])),
        );
        lemma_matches_char(s, j, ':');
        lemma_matches_split(s, j + 1, ser_meta(v), seq![','] + (metas_entries(t) + seq!['}']));
        lemma_parse_meta_of_ser(s, j + 1, v);
        let j2 = j + 1 + ser_meta(v).len();
        lemma_matches_split(s, j2, seq![','], metas_entries(t) + seq!['}']);
        lemma_matches_char(s, j2, ',');
        assert(forall|q: int| 0 <= q < t.len() ==> (#[trigger] t[q]).1.wf());
        lemma_parse_metas_entries_of_ser(s, j2 + 1, t);
        assert(seq![(k, v)] + t =~= m);
    }
}

/// Completeness: a written well-formed field table parses back to itself.
proof fn lemma_parse_metas_of_ser(s: Seq<char>, i: int, m: Seq<(Seq<char>, MetaV)>)
    requires
        crate::assoc::unique_keys(m),
        forall|k: int| 0 <= k < m.len() ==> (#[trigger] m[k]).1.wf(),
        matches_at(s, i, ser_metas(m)),
    ensures
        parse_metas(s, i) == Some((m, i + ser_metas(m).len())),
{
    assert(ser_metas(m) =~= seq!['{'] + (metas_entries(m) + seq!['}']));
    lemma_matches_split(s, i, seq!['{'], metas_entries(m) + seq!['}']);
    lemma_matches_char(s, i, '{');
    if m.len() == 0 {
        assert(metas_entries(m) + seq!['}'] =~= seq!['}']);
        lemma_matches_char(s, i + 1, '}');
    } else {
        let first = metas_entries(m);
        assert(first.len() >= 1 && first[0] == '"') by {
            if m.len() == 1 {
                assert(first == ser_str(m[0].0) + seq![':'] + ser_meta(m[0].1));
                assert(first[0] == ser_str(m[0].0)[0]);
            } else {
                lemma_metas_entries_front(m);
                assert(first[0] == ser_str(m[0].0)[0]);
            }
        }
        assert(s[i + 1] == '"') by {
            assert(s.subrange(i + 1, i + 1 + (first + seq!['}']).len())[0] == (first
                + seq!['}'])[0]);
        }
        lemma_parse_metas_entries_of_ser(s, i + 1, m);
    }
}

/// A written record: its type tag, its id and its field table under the
/// three fixed names, between braces.
pub open spec fn ser_item(it: ItemV) -> Seq<char> {
    seq!['{'] + ser_str("item_type"@) + seq![':'] + ser_str(it.item_type) + seq![','] + ser_str(
        "item_id"@,
    ) + seq![':'] + ser_str(it.item_id) + seq![','] + ser_str("item_meta"@) + seq![':'] + ser_metas(
        it.item_meta,
    ) + seq!['}']
}

/// Parse a written record standing at position `i`.
pub open spec fn parse_item(s: Seq<char>, i: int) -> Option<(ItemV, int)> {
    if !(0 <= i < s.len() && s[i] == '{') {
        None
    } else {
        match parse_str(s, i + 1) {
            None => None,
            Some((k1, j1)) => {
                if !(k1 == "item_type"@ && j1 < s.len() && s[j1] == ':') {
                    None
                } else {
                    match parse_str(s, j1 + 1) {
                        None => None,
                        Some((ty, j2)) => {
                            if !(j2 < s.len() && s[j2] == ',') {
                                None
                            } else {
                                match parse_str(s, j2 + 1) {
                                    None => None,
                                    Some((k2, j3)) => {
                                        if !(k2 == "item_id"@ && j3 < s.len() && s[j3] == ':') {
                                            None
                                        } else {
                                            match parse_str(s, j3 + 1) {
                                                None => None,
                                                Some((id, j4)) => {
                                                    if !(j4 < s.len() && s[j4] == ',') {
                                                        None
                                                    } else {
                                                        match parse_str(s, j4 + 1) {
                                                            None => None,
                                                            Some((k3, j5)) => {
                                                                if !(k3 == "item_meta"@ && j5
                                                                    < s.len() && s[j5] == ':') {
                                                                    None
                                                                } else {
                                                                    match parse_metas(s, j5 + 1) {
                                                                        None => None,
                                                                        Some((metas, j6)) => {
                                                                            if j6 < s.len() && s[j6]
                                                                                == '}' {
                                                                                Some(
                                                                                    (
                                                                                        ItemV {
                                                                                            item_type: ty,
                                                                                            item_id: id,
                                                                                            item_meta: metas,
                                                                                        },
                                                                                        j6 + 1,
                                                                                    ),
                                                                                )
                                                                            } else {
                                                                                None
                                                                            }
                                                                        },
                                                                    }
                                                                }
                                                            },
                                                        }
                                                    }
                                                },
                                            }
                                        }
                                    },
                                }
                            }
                        },
                    }
                }
            },
        }
    }
}

/// Completeness: a written well-formed record parses back to itself.
#[verifier::rlimit(100)]
proof fn lemma_parse_item_of_ser(s: Seq<char>, i: int, it: ItemV)
    requires
        it.wf(),
        matches_at(s, i, ser_item(it)),
    ensures
        parse_item(s, i) == Some((it, i + ser_item(it).len())),
{
    let a1 = ser_str("item_type"@);
    let a2 = ser_str(it.item_type);
    let a3 = ser_str("item_id"@);
    let a4 = ser_str(it.item_id);
    let a5 = ser_str("item_meta"@);
    let a6 = ser_metas(it.item_meta);
    assert(ser_item(it) =~= seq!['{'] + (a1 + (seq![':'] + (a2 + (seq![','] + (a3 + (seq![':'] + (
    a4 + (seq![','] + (a5 + (seq![':'] + (a6 + seq!['}']))))))))))));
    lemma_matches_split(s, i, seq!['{'], a1 + (seq![':'] + (a2 + (seq![','] + (a3 + (seq![':'] + (
    a4 + (seq![','] + (a5 + (seq![':'] + (a6 + seq!['}'])))))))))));
    lemma_matches_char(s, i, '{');
    lemma_matches_split(s, i + 1, a1, seq![':'] + (a2 + (seq![','] + (a3 + (seq![':'] + (a4 + (
    seq![','] + (a5 + (seq![':'] + (a6 + seq!['}']))))))))));
    lemma_parse_str_of_ser(s, i + 1, "item_type"@);
    let j1 = i + 1 + a1.len();
    lemma_matches_split(s, j1, seq![':'], a2 + (seq![','] + (a3 + (seq![':'] + (a4 + (seq![','] + (
    a5 + (seq![':'] + (a6 + seq!['}'])))))))));
    lemma_matches_char(s, j1, ':');
    lemma_matches_split(s, j1 + 1, a2, seq![','] + (a3 + (seq![':'] + (a4 + (seq![','] + (a5 + (
    seq![':'] + (a6 + seq!['}']))))))));
    lemma_parse_str_of_ser(s, j1 + 1, it.item_type);
    let j2 = j1 + 1 + a2.len();
    lemma_matches_split(s, j2, seq![','], a3 + (seq![':'] + (a4 + (seq![','] + (a5 + (seq![':'] + (
    a6 + seq!['}'])))))));
    lemma_matches_char(s, j2, ',');
    lemma_matches_split(s, j2 + 1, a3, seq![':'] + (a4 + (seq![','] + (a5 + (seq![':'] + (a6
        + seq!['}']))))));
    lemma_parse_str_of_ser(s, j2 + 1, "item_id"@);
    let j3 = j2 + 1 + a3.len();
    lemma_matches_split(s, j3, seq![':'], a4 + (seq![','] + (a5 + (seq![':'] + (a6 + seq!['}'])))));
    lemma_matches_char(s, j3, ':');
    lemma_matches_split(s, j3 + 1, a4, seq![','] + (a5 + (seq![':'] + (a6 + seq!['}']))));
    lemma_parse_str_of_ser(s, j3 + 1, it.item_id);
    let j4 = j3 + 1 + a4.len();
    lemma_matches_split(s, j4, seq![','], a5 + (seq![':'] + (a6 + seq!['}'])));
    lemma_matches_char(s, j4, ',');
    lemma_matches_split(s, j4 + 1, a5, seq![':'] + (a6 + seq!['}']));
    lemma_parse_str_of_ser(s, j4 + 1, "item_meta"@);
    let j5 = j4 + 1 + a5.len();
    lemma_matches_split(s, j5, seq![':'], a6 + seq!['}']);
    lemma_matches_char(s, j5, ':');
    lemma_matches_split(s, j5 + 1, a6, seq!['}']);
    lemma_parse_metas_of_ser(s, j5 + 1, it.item_meta);
    let j6 = j5 + 1 + a6.len();
    lemma_matches_char(s, j6, '}');
}

/// The written entry list of the record map: each record under its own id.
pub open spec fn items_entries(items: Seq<ItemV>) -> Seq<char>
    decreases items.len(),
{
    if items.len() == 0 {
        Seq::empty()
    } else if items.len() == 1 {
        ser_str(items[0].item_id) + seq![':'] + ser_item(items[0])
    } else {
        items_entries(items.drop_last()) + seq![','] + ser_str(items.last().item_id) + seq![':']
            + ser_item(items.last())
    }
}

/// The written record map.
pub open spec fn ser_items(items: Seq<ItemV>) -> Seq<char> {
    seq!['{'] + items_entries(items) + seq!['}']
}

/// The record entry list also unfolds from the front.
#[verifier::rlimit(60)]
proof fn lemma_items_entries_front(items: Seq<ItemV>)
    requires
        items.len() >= 2,
    ensures
        items_entries(items) == ser_str(items[0].item_id) + seq![':'] + ser_item(items[0])
            + seq![','] + items_entries(items.subrange(1, items.len() as int)),
    decreases items.len(),
{
    let t = items.subrange(1, items.len() as int);
    if items.len() == 2 {
        assert(items.drop_last() =~= seq![items[0]]);
        assert(t =~= seq![items[1]]);
        assert(items_entries(seq![items[0]]) == ser_str(items[0].item_id) + seq![':'] + ser_item(
            items[0],
        ));
        assert(items_entries(t) == ser_str(items[1].item_id) + seq![':'] + ser_item(items[1]));
        assert(items_entries(items.drop_last()) + seq![','] + ser_str(items.last().item_id)
            + seq![':'] + ser_item(items.last()) =~= ser_str(items[0].item_id) + seq![':']
            + ser_item(items[0]) + seq![','] + items_entries(t));
    } else {
        lemma_items_entries_front(items.drop_last());
        assert(items.drop_last()[0] == items[0]);
        assert(items.drop_last().subrange(1, items.len() - 1) =~= t.drop_last());
        assert(t.last() == items.last());
        assert(ser_str(items[0].item_id) + seq![':'] + ser_item(items[0]) + seq![',']
            + items_entries(t.drop_last()) + seq![','] + ser_str(items.last().item_id) + seq![':']
            + ser_item(items.last()) =~= ser_str(items[0].item_id) + seq![':'] + ser_item(items[0])
            + seq![','] + (items_entries(t.drop_last()) + seq![','] + ser_str(t.last().item_id)
            + seq![':'] + ser_item(t.last())));
    }
}

/// Parse a comma separated record entry list ending right before a closing
/// brace; each entry's key must read the record's own id.
pub open spec fn parse_items_entries(s: Seq<char>, i: int) -> Option<(Seq<ItemV>, int)>
    decreases s.len() - i,
{
    match parse_str(s, i) {
        None => None,
        Some((k, j)) => {
            if !(j < s.len() && s[j] == ':') {
                None
            } else {
                match parse_item(s, j + 1) {
                    None => None,
                    Some((it, j2)) => {
                        if k != it.item_id {
                            None
                        } else if j2 < s.len() && s[j2] == ',' {
                            if j2 + 1 > i {
                                match parse_items_entries(s, j2 + 1) {
                                    Some((m, j3)) => Some((seq![it] + m, j3)),
                                    None => None,
                                }
                            } else {
                                None
                            }
                        } else if j2 < s.len() && s[j2] == '}' {
                            Some((seq![it], j2 + 1))
                        } else {
                            None
                        }
                    },
                }
            }
        },
    }
}

/// Parse a written record map standing at position `i`; a map holding an
/// id twice is rejected.
pub open spec fn parse_items(s: Seq<char>, i: int) -> Option<(Seq<ItemV>, int)> {
    if !(0 <= i < s.len() && s[i] == '{') {
        None
    } else if i + 1 < s.len() && s[i + 1] == '}' {
        Some((Seq::empty(), i + 2))
    } else {
        match parse_items_entries(s, i + 1) {
            Some((m, j)) => {
                if forall|a: int, b: int|
                    0 <= a < b < m.len() ==> (#[trigger] m[a]).item_id != (
                    #[trigger] m[b]).item_id {
                    Some((m, j))
                } else {
                    None
                }
            },
            None => None,
        }
    }
}

/// Completeness for record entry lists.
#[verifier::rlimit(60)]
proof fn lemma_parse_items_entries_of_ser(s: Seq<char>, i: int, items: Seq<ItemV>)
    requires
        items.len() >= 1,
        forall|k: int| 0 <= k < items.len() ==> (#[trigger] items[k]).wf(),
        matches_at(s, i, items_entries(items) + seq!['}']),
    ensures
        parse_items_entries(s, i) == Some((items, i + items_entries(items).len() + 1)),
    decreases items.len(),
{
    let it = items[0];
    let k = it.item_id;
    if items.len() == 1 {
        assert(items_entries(items) + seq!['}'] =~= ser_str(k) + (seq![':'] + (ser_item(it)
            + seq!['}'])));
        lemma_matches_split(s, i, ser_str(k), seq![':'] + (ser_item(it) + seq!['}']));
        lemma_parse_str_of_ser(s, i, k);
        let j = i + ser_str(k).len();
        lemma_matches_split(s, j, seq![':'], ser_item(it) + seq!['}']);
        lemma_matches_char(s, j, ':');
        lemma_matches_split(s, j + 1, ser_item(it), seq!['}']);
        lemma_parse_item_of_ser(s, j + 1, it);
        let j2 = j + 1 + ser_item(it).len();
        lemma_matches_char(s, j2, '}');
        assert(seq![it] =~= items);
    } else {
        lemma_items_entries_front(items);
        let t = items.subrange(1, items.len() as int);
        assert(items_entries(items) + seq!['}'] =~= ser_str(k) + (seq![':'] + (ser_item(it) + (
        seq![','] + (items_entries(t) + seq!['}'])))));
        lemma_matches_split(
            s,
            i,
            ser_str(k),
            seq![':'] + (ser_item(it) + (seq![','] + (items_entries(t) + seq!['}']))),
        );
        lemma_parse_str_of_ser(s, i, k);
        let j = i + ser_str(k).len();
        lemma_matches_split(
            s,
            j,
            seq![':'],
            ser_item(it) + (seq![','] + (items_entries(t) + seq!['}'])),
        );
        lemma_matches_char(s, j, ':');
        lemma_matches_split(s, j + 1, ser_item(it), seq![','] + (items_entries(t) + seq!['}']));
        lemma_parse_item_of_ser(s, j + 1, it);
        let j2 = j + 1 + ser_item(it).len();
        lemma_matches_split(s, j2, seq![','], items_entries(t) + seq!['}']);
        lemma_matches_char(s, j2, ',');
        assert(forall|q: int| 0 <= q < t.len() ==> (#[trigger] t[q]).wf());
        lemma_parse_items_entries_of_ser(s, j2 + 1, t);
        assert(seq![it] + t =~= items);
    }
}

/// Completeness: a written record map of well-formed records with distinct
/// ids parses back to itself.
proof fn lemma_parse_items_of_ser(s: Seq<char>, i: int, items: Seq<ItemV>)
    requires
        forall|k: int| 0 <= k < items.len() ==> (#[trigger] items[k]).wf(),
        forall|a: int, b: int|
            0 <= a < b < items.len() ==> items[a].item_id != items[b].item_id,
        matches_at(s, i, ser_items(items)),
    ensures
        parse_items(s, i) == Some((items, i + ser_items(items).len())),
{
    assert(ser_items(items) =~= seq!['{'] + (items_entries(items) + seq!['}']));
    lemma_matches_split(s, i, seq!['{'], items_entries(items) + seq!['}']);
    lemma_matches_char(s, i, '{');
    if items.len() == 0 {
        assert(items_entries(items) + seq!['}'] =~= seq!['}']);
        lemma_matches_char(s, i + 1, '}');
    } else {
        let first = items_entries(items);
        assert(first.len() >= 1 && first[0] == '"') by {
            if items.len() == 1 {
                assert(first == ser_str(items[0].item_id) + seq![':'] + ser_item(items[0]));
                assert(first[0] == ser_str(items[0].item_id)[0]);
            } else {
                lemma_items_entries_front(items);
                assert(first[0] == ser_str(items[0].item_id)[0]);
            }
        }
        assert(s[i + 1] == '"') by {
            assert(s.subrange(i + 1, i + 1 + (first + seq!['}']).len())[0] == (first
                + seq!['}'])[0]);
        }
        lemma_parse_items_entries_of_ser(s, i + 1, items);
    }
}

/// A whole written store: its id and its record map under the two fixed
/// names, between braces.
pub open spec fn ser_storage(st: StorageV) -> Seq<char> {
    seq!['{'] + ser_str("id"@) + seq![':'] + ser_str(st.id) + seq![','] + ser_str("items"@)
        + seq![':'] + ser_items(st.items) + seq!['}']
}

/// Parse a written store standing at position `i`.
pub open spec fn parse_storage(s: Seq<char>, i: int) -> Option<(StorageV, int)> {
    if !(0 <= i < s.len() && s[i] == '{') {
        None
    } else {
        match parse_str(s, i + 1) {
            None => None,
            Some((k1, j1)) => {
                if !(k1 == "id"@ && j1 < s.len() && s[j1] == ':') {
                    None
                } else {
                    match parse_str(s, j1 + 1) {
                        None => None,
                        Some((id, j2)) => {
                            if !(j2 < s.len() && s[j2] == ',') {
                                None
                            } else {
                                match parse_str(s, j2 + 1) {
                                    None => None,
                                    Some((k2, j3)) => {
                                        if !(k2 == "items"@ && j3 < s.len() && s[j3] == ':') {
                                            None
                                        } else {
                                            match parse_items(s, j3 + 1) {
                                                None => None,
                                                Some((items, j4)) => {
                                                    if j4 < s.len() && s[j4] == '}' {
                                                        Some((StorageV { id, items }, j4 + 1))
                                                    } else {
                                                        None
                                                    }
                                                },
                                            }
                                        }
                                    },
                                }
                            }
                        },
                    }
                }
            },
        }
    }
}

/// A parsed store document: the whole input is one written store.
pub open spec fn parse_storage_doc(s: Seq<char>) -> Option<StorageV> {
    match parse_storage(s, 0) {
        Some((st, j)) => {
            if j == s.len() {
                Some(st)
            } else {
                None
            }
        },
        None => None,
    }
}

/// Completeness: a written well-formed store parses back to itself.
pub proof fn lemma_parse_storage_of_ser(s: Seq<char>, i: int, st: StorageV)
    requires
        st.wf(),
        matches_at(s, i, ser_storage(st)),
    ensures
        parse_storage(s, i) == Some((st, i + ser_storage(st).len())),
{
    let a1 = ser_str("id"@);
    let a2 = ser_str(st.id);
    let a3 = ser_str("items"@);
    let a4 = ser_items(st.items);
    assert(ser_storage(st) =~= seq!['{'] + (a1 + (seq![':'] + (a2 + (seq![','] + (a3 + (seq![':']
        + (a4 + seq!['}']))))))));
    lemma_matches_split(s, i, seq!['{'], a1 + (seq![':'] + (a2 + (seq![','] + (a3 + (seq![':'] + (
    a4 + seq!['}'])))))));
    lemma_matches_char(s, i, '{');
    lemma_matches_split(s, i + 1, a1, seq![':'] + (a2 + (seq![','] + (a3 + (seq![':'] + (a4
        + seq!['}']))))));
    lemma_parse_str_of_ser(s, i + 1, "id"@);
    let j1 = i + 1 + a1.len();
    lemma_matches_split(s, j1, seq![':'], a2 + (seq![','] + (a3 + (seq![':'] + (a4 + seq!['}'])))));
    lemma_matches_char(s, j1, ':');
    lemma_matches_split(s, j1 + 1, a2, seq![','] + (a3 + (seq![':'] + (a4 + seq!['}']))));
    lemma_parse_str_of_ser(s, j1 + 1, st.id);
    let j2 = j1 + 1 + a2.len();
    lemma_matches_split(s, j2, seq![','], a3 + (seq![':'] + (a4 + seq!['}'])));
    lemma_matches_char(s, j2, ',');
    lemma_matches_split(s, j2 + 1, a3, seq![':'] + (a4 + seq!['}']));
    lemma_parse_str_of_ser(s, j2 + 1, "items"@);
    let j3 = j2 + 1 + a3.len();
    lemma_matches_split(s, j3, seq![':'], a4 + seq!['}']);
    lemma_matches_char(s, j3, ':');
    lemma_matches_split(s, j3 + 1, a4, seq!['}']);
    lemma_parse_items_of_ser(s, j3 + 1, st.items);
    let j4 = j3 + 1 + a4.len();
    lemma_matches_char(s, j4, '}');
}

/// Round trip: any well-formed store is read back exactly from its written
/// form.
pub proof fn lemma_storage_round_trip(st: StorageV)
    requires
        st.wf(),
    ensures
        parse_storage_doc(ser_storage(st)) == Some(st),
{
    let s = ser_storage(st);
    assert(s.subrange(0, s.len() as int) =~= s);
    lemma_parse_storage_of_ser(s, 0, st);
}

/// Decide `is_digit`.
fn digit_check(c: char) -> (r: bool)
    ensures
        r == is_digit(c),
{
    c >= '0' && c <= '9'
}

/// The digit character of a value below ten, executably.
fn to_digit_char(d: u64) -> (r: char)
    requires
        d < 10,
    ensures
        r == digit_char(d as int),
{
    if d == 0 {
        '0'
    } else if d == 1 {
        '1'
    } else if d == 2 {
        '2'
    } else if d == 3 {
        '3'
    } else if d == 4 {
        '4'
    } else if d == 5 {
        '5'
    } else if d == 6 {
        '6'
    } else if d == 7 {
        '7'
    } else if d == 8 {
        '8'
    } else {
        '9'
    }
}

/// The value of a digit character, executably.
fn from_digit_char(c: char) -> (r: u64)
    requires
        is_digit(c),
    ensures
        r == digit_val(c),
        r < 10,
{
    if c == '0' {
        0
    } else if c == '1' {
        1
    } else if c == '2' {
        2
    } else if c == '3' {
        3
    } else if c == '4' {
        4
    } else if c == '5' {
        5
    } else if c == '6' {
        6
    } else if c == '7' {
        7
    } else if c == '8' {
        8
    } else {
        9
    }
}

/// Append the decimal form of a natural number to `out`.
fn write_nat(out: &mut Vec<char>, n: u64)
    ensures
        final(out)@ == old(out)@ + dec_nat(n as nat),
    decreases n,
{
    if n < 10 {
        out.push(to_digit_char(n));
        proof {
            assert(out@ =~= old(out)@ + dec_nat(n as nat));
        }
    } else {
        write_nat(out, n / 10);
        out.push(to_digit_char(n % 10));
        proof {
            assert(out@ =~= old(out)@ + dec_nat(n as nat));
        }
    }
}

/// Append the written form of an integer to `out`.
pub fn write_int(out: &mut Vec<char>, v: i32)
    ensures
        final(out)@ == old(out)@ + ser_int(v as int),
{
    if v < 0 {
        out.push('-');
        let mag: u64 = ((-(v as i64)) as u64);
        proof {
            assert(mag == -(v as int));
        }
        write_nat(out, mag);
        proof {
            assert(out@ =~= old(out)@ + ser_int(v as int));
        }
    } else {
        let mag: u64 = (v as u64);
        write_nat(out, mag);
    }
}

/// Parse an integer, executably.
pub fn scan_int(s: &Vec<char>, i: usize) -> (r: Option<(i32, usize)>)
    ensures
        match (r, parse_int(s@, i as int)) {
            (Some((v, j)), Some((sv, sj))) => v as int == sv && j as int == sj && j <= s@.len(),
            (None, None) => true,
            _ => false,
        },
{
    if i >= s.len() {
        return None;
    }
    let neg = s[i] == '-';
    let start = if neg {
        i + 1
    } else {
        i
    };
    let bound: u64 = 0x1_0000_0000;
    let mut acc: u64 = 0;
    let mut j = start;
    while j < s.len() && digit_check(s[j])
        invariant
            i <= start <= j <= s@.len(),
            bound == 0x1_0000_0000,
            forall|k: int| start <= k < j ==> is_digit(#[trigger] s@[k]),
            (nat_of_digits(s@.subrange(start as int, j as int)) < 0x1_0000_0000 && acc
                == nat_of_digits(s@.subrange(start as int, j as int))) || (nat_of_digits(
                s@.subrange(start as int, j as int),
            ) >= 0x1_0000_0000 && acc == 0x1_0000_0000),
        decreases s@.len() - j,
    {
        proof {
            assert(s@.subrange(start as int, j + 1).drop_last() =~= s@.subrange(
                start as int,
                j as int,
            ));
            assert(s@.subrange(start as int, j + 1).last() == s@[j as int]);
        }
        let d = from_digit_char(s[j]);
        let nd = acc * 10 + d;
        if nd >= bound {
            acc = bound;
        } else {
            acc = nd;
        }
        j = j + 1;
    }
    proof {
        lemma_digits_end_pin(s@, start as int, j as int);
    }
    if j == start {
        return None;
    }
    if neg {
        if acc <= 0x8000_0000 {
            if acc == 0x8000_0000 {
                Some((i32::MIN, j))
            } else {
                let x: i32 = acc as i32;
                Some((-x, j))
            }
        } else {
            None
        }
    } else {
        if acc <= 0x7fff_ffff {
            let x: i32 = acc as i32;
            Some((x, j))
        } else {
            None
        }
    }
}

/// Append the written form of a byte array to `out`.
pub fn write_bytes(out: &mut Vec<char>, b: &Vec<u8>)
    ensures
        final(out)@ == old(out)@ + ser_bytes(b@),
{
    out.push('[');
    let n = b.len();
    let mut i: usize = 0;
    while i < n
        invariant
            n == b@.len(),
            i <= n,
            out@ == old(out)@ + seq!['['] + bytes_entries(b@.subrange(0, i as int)),
        decreases n - i,
    {
        proof {
            assert(b@.subrange(0, i + 1).drop_last() =~= b@.subrange(0, i as int));
            assert(b@.subrange(0, i + 1).last() == b@[i as int]);
            if i == 0 {
                assert(b@.subrange(0, 1)[0] == b@[0]);
            }
        }
        if i > 0 {
            out.push(',');
        }
        write_int(out, b[i] as i32);
        proof {
            assert(out@ =~= old(out)@ + seq!['['] + bytes_entries(b@.subrange(0, i + 1)));
        }
        i = i + 1;
    }
    out.push(']');
    proof {
        assert(b@.subrange(0, n as int) =~= b@);
        assert(out@ =~= old(out)@ + ser_bytes(b@));
    }
}

/// Parse a byte list's entries, executably.
fn scan_bytes_entries(s: &Vec<char>, i: usize) -> (r: Option<(Vec<u8>, usize)>)
    ensures
        match (r, parse_bytes_entries(s@, i as int)) {
            (Some((b, j)), Some((sb, sj))) => b@ == sb && j as int == sj && j <= s@.len(),
            (None, None) => true,
            _ => false,
        },
    decreases s@.len() - i,
{
    match scan_int(s, i) {
        None => None,
        Some((v, j)) => {
            if !(0 <= v && v <= 255) {
                None
            } else if j < s.len() && s[j] == ',' {
                if j + 1 > i {
                    match scan_bytes_entries(s, j + 1) {
                        Some((mut b, j2)) => {
                            b.insert(0, v as u8);
                            proof {
                                assert(b@ =~= seq![(v as u8)] + b@.subrange(1, b@.len() as int));
                                assert(b@.subrange(1, b@.len() as int) == parse_bytes_entries(
                                    s@,
                                    j + 1,
                                )->Some_0.0);
                            }
                            Some((b, j2))
                        },
                        None => None,
                    }
                } else {
                    None
                }
            } else if j < s.len() && s[j] == ']' {
                let mut b: Vec<u8> = Vec::new();
                b.push(v as u8);
                proof {
                    assert(b@ =~= seq![(v as u8)]);
                }
                Some((b, j + 1))
            } else {
                None
            }
        },
    }
}

/// Parse a written byte array, executably.
pub fn scan_bytes(s: &Vec<char>, i: usize) -> (r: Option<(Vec<u8>, usize)>)
    ensures
        match (r, parse_bytes(s@, i as int)) {
            (Some((b, j)), Some((sb, sj))) => b@ == sb && j as int == sj && j <= s@.len(),
            (None, None) => true,
            _ => false,
        },
{
    if !(i < s.len() && s[i] == '[') {
        None
    } else if i + 1 < s.len() && s[i + 1] == ']' {
        let b: Vec<u8> = Vec::new();
        proof {
            assert(b@ =~= Seq::<u8>::empty());
        }
        Some((b, i + 2))
    } else {
        scan_bytes_entries(s, i + 1)
    }
}

/// Append the written form of a string list to `out`.
pub fn write_strlist(out: &mut Vec<char>, v: &Vec<String>)
    ensures
        final(out)@ == old(out)@ + ser_strlist(v.deep_view()),
{
    let ghost dv = v.deep_view();
    proof {
        assert(forall|j: int| 0 <= j < v@.len() ==> dv[j] == (#[trigger] v@[j])@);
    }
    out.push('[');
    let n = v.len();
    let mut i: usize = 0;
    while i < n
        invariant
            n == v@.len(),
            dv.len() == n,
            i <= n,
            forall|j: int| 0 <= j < n ==> dv[j] == (#[trigger] v@[j])@,
            out@ == old(out)@ + seq!['['] + strlist_entries(dv.subrange(0, i as int)),
        decreases n - i,
    {
        proof {
            assert(dv.subrange(0, i + 1).drop_last() =~= dv.subrange(0, i as int));
            assert(dv.subrange(0, i + 1).last() == dv[i as int]);
            if i == 0 {
                assert(dv.subrange(0, 1)[0] == dv[0]);
            }
        }
        if i > 0 {
            out.push(',');
        }
        write_str(out, v[i].as_str());
        proof {
            assert(out@ =~= old(out)@ + seq!['['] + strlist_entries(dv.subrange(0, i + 1)));
        }
        i = i + 1;
    }
    out.push(']');
    proof {
        assert(dv.subrange(0, n as int) =~= dv);
        assert(out@ =~= old(out)@ + ser_strlist(dv));
    }
}

/// Parse a string list's entries, executably.
fn scan_strlist_entries(s: &Vec<char>, i: usize) -> (r: Option<(Vec<String>, usize)>)
    ensures
        match (r, parse_strlist_entries(s@, i as int)) {
            (Some((v, j)), Some((sv, sj))) => v.deep_view() == sv && j as int == sj && j
                <= s@.len(),
            (None, None) => true,
            _ => false,
        },
    decreases s@.len() - i,
{
    match scan_str(s, i) {
        None => None,
        Some((t, j)) => {
            let piece = chars_to_string(&t);
            if j < s.len() && s[j] == ',' {
                if j + 1 > i {
                    match scan_strlist_entries(s, j + 1) {
                        Some((mut v, j2)) => {
                            v.insert(0, piece);
                            proof {
                                assert(forall|k: int|
                                    0 <= k < v@.len() ==> v.deep_view()[k] == (
                                    #[trigger] v@[k])@);
                                assert(v.deep_view() =~~= seq![t@] + parse_strlist_entries(
                                    s@,
                                    j + 1,
                                )->Some_0.0);
                            }
                            Some((v, j2))
                        },
                        None => None,
                    }
                } else {
                    None
                }
            } else if j < s.len() && s[j] == ']' {
                let mut v: Vec<String> = Vec::new();
                v.push(piece);
                proof {
                    assert(forall|k: int|
                        0 <= k < v@.len() ==> v.deep_view()[k] == (#[trigger] v@[k])@);
                    assert(v.deep_view() =~~= seq![t@]);
                }
                Some((v, j + 1))
            } else {
                None
            }
        },
    }
}

/// Parse a written string list, executably.
pub fn scan_strlist(s: &Vec<char>, i: usize) -> (r: Option<(Vec<String>, usize)>)
    ensures
        match (r, parse_strlist(s@, i as int)) {
            (Some((v, j)), Some((sv, sj))) => v.deep_view() == sv && j as int == sj && j
                <= s@.len(),
            (None, None) => true,
            _ => false,
        },
{
    if !(i < s.len() && s[i] == '[') {
        None
    } else if i + 1 < s.len() && s[i + 1] == ']' {
        let v: Vec<String> = Vec::new();
        proof {
            assert(v.deep_view() =~= Seq::<Seq<char>>::empty());
        }
        Some((v, i + 2))
    } else {
        scan_strlist_entries(s, i + 1)
    }
}

/// Append the written form of one field value to `out`.
pub fn write_meta(out: &mut Vec<char>, m: &Meta)
    ensures
        final(out)@ == old(out)@ + ser_meta(m@),
{
    out.push('{');
    match m {
        Meta::Text(t) => {
            write_str(out, "Text");
            out.push(':');
            write_str(out, t.as_str());
        },
        Meta::Binary(b) => {
            write_str(out, "Binary");
            out.push(':');
            write_bytes(out, b);
        },
        Meta::TextVec(v) => {
            write_str(out, "TextVec");
            out.push(':');
            write_strlist(out, v);
        },
        Meta::Int(i) => {
            write_str(out, "Int");
            out.push(':');
            write_int(out, *i);
        },
    }
    out.push('}');
    proof {
        assert(out@ =~= old(out)@ + ser_meta(m@));
    }
}

/// Parse a written field value, executably.
pub fn scan_meta(s: &Vec<char>, i: usize) -> (r: Option<(Meta, usize)>)
    ensures
        match (r, parse_meta(s@, i as int)) {
            (Some((m, j)), Some((sm, sj))) => m@ == sm && j as int == sj && j <= s@.len(),
            (None, None) => true,
            _ => false,
        },
{
    if !(i < s.len() && s[i] == '{') {
        return None;
    }
    match scan_str(s, i + 1) {
        None => None,
        Some((tag, j)) => {
            if !(j < s.len() && s[j] == ':') {
                None
            } else {
                let tag_str = chars_to_string(&tag);
                if str_eq(tag_str.as_str(), "Text") {
                    match scan_str(s, j + 1) {
                        None => None,
                        Some((t, j2)) => {
                            if j2 < s.len() && s[j2] == '}' {
                                Some((Meta::Text(chars_to_string(&t)), j2 + 1))
                            } else {
                                None
                            }
                        },
                    }
                } else if str_eq(tag_str.as_str(), "Binary") {
                    match scan_bytes(s, j + 1) {
                        None => None,
                        Some((b, j2)) => {
                            if j2 < s.len() && s[j2] == '}' {
                                Some((Meta::Binary(b), j2 + 1))
                            } else {
                                None
                            }
                        },
                    }
                } else if str_eq(tag_str.as_str(), "TextVec") {
                    match scan_strlist(s, j + 1) {
                        None => None,
                        Some((v, j2)) => {
                            if j2 < s.len() && s[j2] == '}' {
                                Some((Meta::TextVec(v), j2 + 1))
                            } else {
                                None
                            }
                        },
                    }
                } else if str_eq(tag_str.as_str(), "Int") {
                    match scan_int(s, j + 1) {
                        None => None,
                        Some((v, j2)) => {
                            if j2 < s.len() && s[j2] == '}' {
                                Some((Meta::Int(v), j2 + 1))
                            } else {
                                None
                            }
                        },
                    }
                } else {
                    None
                }
            }
        },
    }
}

/// Append the written form of a field table to `out`.
pub fn write_metas(out: &mut Vec<char>, metas: &Vec<(String, Meta)>)
    ensures
        final(out)@ == old(out)@ + ser_metas(entries_view(metas@)),
{
    let ghost ev = entries_view(metas@);
    proof {
        lemma_entries_view(metas@);
    }
    out.push('{');
    let n = metas.len();
    let mut i: usize = 0;
    while i < n
        invariant
            n == metas@.len(),
            ev.len() == n,
            i <= n,
            forall|j: int| 0 <= j < n ==> #[trigger] ev[j] == (metas@[j].0@, metas@[j].1@),
            out@ == old(out)@ + seq!['{'] + metas_entries(ev.subrange(0, i as int)),
        decreases n - i,
    {
        proof {
            assert(ev.subrange(0, i + 1).drop_last() =~= ev.subrange(0, i as int));
            assert(ev.subrange(0, i + 1).last() == ev[i as int]);
            if i == 0 {
                assert(ev.subrange(0, 1)[0] == ev[0]);
            }
        }
        if i > 0 {
            out.push(',');
        }
        write_str(out, metas[i].0.as_str());
        out.push(':');
        write_meta(out, &metas[i].1);
        proof {
            assert(out@ =~= old(out)@ + seq!['{'] + metas_entries(ev.subrange(0, i + 1)));
        }
        i = i + 1;
    }
    out.push('}');
    proof {
        assert(ev.subrange(0, n as int) =~= ev);
        assert(out@ =~= old(out)@ + ser_metas(ev));
    }
}

/// Whether a parsed field table binds some name twice.
fn meta_keys_unique(v: &Vec<(String, Meta)>) -> (r: bool)
    ensures
        r == crate::assoc::unique_keys(entries_view(v@)),
{
    proof {
        lemma_entries_view(v@);
    }
    let n = v.len();
    let mut i: usize = 0;
    while i < n
        invariant
            n == v@.len(),
            i <= n,
            forall|a: int, b: int|
                0 <= a < b < n && a < i ==> entries_view(v@)[a].0 != entries_view(v@)[b].0,
        decreases n - i,
    {
        let mut j: usize = i + 1;
        while j < n
            invariant
                n == v@.len(),
                i < n,
                i + 1 <= j <= n,
                forall|a: int, b: int|
                    0 <= a < b < n && a < i ==> entries_view(v@)[a].0 != entries_view(v@)[b].0,
                forall|b: int| i < b < j ==> entries_view(v@)[i as int].0 != entries_view(
                    v@,
                )[b].0,
            decreases n - j,
        {
            if str_eq(v[i].0.as_str(), v[j].0.as_str()) {
                proof {
                    lemma_entries_view(v@);
                    assert(entries_view(v@)[i as int].0 == entries_view(v@)[j as int].0);
                }
                return false;
            }
            proof {
                lemma_entries_view(v@);
            }
            j = j + 1;
        }
        i = i + 1;
    }
    true
}

/// Parse a field table's entries, executably.
fn scan_metas_entries(s: &Vec<char>, i: usize) -> (r: Option<(Vec<(String, Meta)>, usize)>)
    ensures
        match (r, parse_metas_entries(s@, i as int)) {
            (Some((m, j)), Some((sm, sj))) => entries_view(m@) == sm && j as int == sj && j
                <= s@.len(),
            (None, None) => true,
            _ => false,
        },
    decreases s@.len() - i,
{
    match scan_str(s, i) {
        None => None,
        Some((kc, j)) => {
            if !(j < s.len() && s[j] == ':') {
                None
            } else {
                match scan_meta(s, j + 1) {
                    None => None,
                    Some((m, j2)) => {
                        let k = chars_to_string(&kc);
                        if j2 < s.len() && s[j2] == ',' {
                            if j2 + 1 > i {
                                match scan_metas_entries(s, j2 + 1) {
                                    Some((mut rest, j3)) => {
                                        let ghost rv = entries_view(rest@);
                                        rest.insert(0, (k, m));
                                        proof {
                                            lemma_entries_view(rest@);
                                            assert(entries_view(rest@) =~= seq![
                                                (kc@, parse_meta(s@, j + 1)->Some_0.0),
                                            ] + rv);
                                        }
                                        Some((rest, j3))
                                    },
                                    None => None,
                                }
                            } else {
                                None
                            }
                        } else if j2 < s.len() && s[j2] == '}' {
                            let mut rest: Vec<(String, Meta)> = Vec::new();
                            rest.push((k, m));
                            proof {
                                lemma_entries_view(rest@);
                                assert(entries_view(rest@) =~= seq![
                                    (kc@, parse_meta(s@, j + 1)->Some_0.0),
                                ]);
                            }
                            Some((rest, j2 + 1))
                        } else {
                            None
                        }
                    },
                }
            }
        },
    }
}

/// Parse a written field table, executably.
pub fn scan_metas(s: &Vec<char>, i: usize) -> (r: Option<(Vec<(String, Meta)>, usize)>)
    ensures
        match (r, parse_metas(s@, i as int)) {
            (Some((m, j)), Some((sm, sj))) => entries_view(m@) == sm && j as int == sj && j
                <= s@.len(),
            (None, None) => true,
            _ => false,
        },
{
    if !(i < s.len() && s[i] == '{') {
        None
    } else if i + 1 < s.len() && s[i + 1] == '}' {
        let m: Vec<(String, Meta)> = Vec::new();
        proof {
            lemma_entries_view(m@);
            assert(entries_view(m@) =~= Seq::<(Seq<char>, MetaV)>::empty());
        }
        Some((m, i + 2))
    } else {
        match scan_metas_entries(s, i + 1) {
            Some((m, j)) => {
                if meta_keys_unique(&m) {
                    Some((m, j))
                } else {
                    None
                }
            },
            None => None,
        }
    }
}

/// Append the written form of one record to `out`.
pub fn write_item(out: &mut Vec<char>, it: &Item)
    ensures
        final(out)@ == old(out)@ + ser_item(it@),
{
    out.push('{');
    write_str(out, "item_type");
    out.push(':');
    write_str(out, it.item_type.as_str());
    out.push(',');
    write_str(out, "item_id");
    out.push(':');
    write_str(out, it.item_id.as_str());
    out.push(',');
    write_str(out, "item_meta");
    out.push(':');
    write_metas(out, &it.item_meta);
    out.push('}');
    proof {
        assert(out@ =~= old(out)@ + ser_item(it@));
    }
}

/// Parse a written record, executably.
pub fn scan_item(s: &Vec<char>, i: usize) -> (r: Option<(Item, usize)>)
    ensures
        match (r, parse_item(s@, i as int)) {
            (Some((it, j)), Some((si, sj))) => it@ == si && j as int == sj && j <= s@.len(),
            (None, None) => true,
            _ => false,
        },
{
    if !(i < s.len() && s[i] == '{') {
        return None;
    }
    match scan_str(s, i + 1) {
        None => None,
        Some((k1, j1)) => {
            let k1s = chars_to_string(&k1);
            if !(str_eq(k1s.as_str(), "item_type") && j1 < s.len() && s[j1] == ':') {
                None
            } else {
                match scan_str(s, j1 + 1) {
                    None => None,
                    Some((ty, j2)) => {
                        if !(j2 < s.len() && s[j2] == ',') {
                            None
                        } else {
                            match scan_str(s, j2 + 1) {
                                None => None,
                                Some((k2, j3)) => {
                                    let k2s = chars_to_string(&k2);
                                    if !(str_eq(k2s.as_str(), "item_id") && j3 < s.len() && s[j3]
                                        == ':') {
                                        None
                                    } else {
                                        match scan_str(s, j3 + 1) {
                                            None => None,
                                            Some((id, j4)) => {
                                                if !(j4 < s.len() && s[j4] == ',') {
                                                    None
                                                } else {
                                                    match scan_str(s, j4 + 1) {
                                                        None => None,
                                                        Some((k3, j5)) => {
                                                            let k3s = chars_to_string(&k3);
                                                            if !(str_eq(
                                                                k3s.as_str(),
                                                                "item_meta",
                                                            ) && j5 < s.len() && s[j5] == ':') {
                                                                None
                                                            } else {
                                                                match scan_metas(s, j5 + 1) {
                                                                    None => None,
                                                                    Some((metas, j6)) => {
                                                                        if j6 < s.len() && s[j6]
                                                                            == '}' {
                                                                            let it = Item {
                                                                                item_type:
                                                                                    chars_to_string(
                                                                                    &ty,
                                                                                ),
                                                                                item_id:
                                                                                    chars_to_string(
                                                                                    &id,
                                                                                ),
                                                                                item_meta: metas,
                                                                            };
                                                                            Some((it, j6 + 1))
                                                                        } else {
                                                                            None
                                                                        }
                                                                    },
                                                                }
                                                            }
                                                        },
                                                    }
                                                }
                                            },
                                        }
                                    }
                                },
                            }
                        }
                    },
                }
            }
        },
    }
}

/// Every parsed field table is uniquely named with in-range values.
proof fn lemma_parse_metas_wf(s: Seq<char>, i: int)
    ensures
        parse_metas(s, i) matches Some((m, _)) ==> crate::assoc::unique_keys(m) && forall|k: int|
            0 <= k < m.len() ==> (#[trigger] m[k]).1.wf(),
{
    if 0 <= i < s.len() && s[i] == '{' && !(i + 1 < s.len() && s[i + 1] == '}') {
        lemma_parse_metas_entries_wf(s, i + 1);
    }
}

/// Every parsed record is well-formed.
proof fn lemma_parse_item_wf(s: Seq<char>, i: int)
    ensures
        parse_item(s, i) matches Some((it, _)) ==> it.wf(),
{
    if 0 <= i < s.len() && s[i] == '{' {
        match parse_str(s, i + 1) {
            None => {},
            Some((k1, j1)) => {
                if k1 == "item_type"@ && j1 < s.len() && s[j1] == ':' {
                    match parse_str(s, j1 + 1) {
                        None => {},
                        Some((ty, j2)) => {
                            if j2 < s.len() && s[j2] == ',' {
                                match parse_str(s, j2 + 1) {
                                    None => {},
                                    Some((k2, j3)) => {
                                        if k2 == "item_id"@ && j3 < s.len() && s[j3] == ':' {
                                            match parse_str(s, j3 + 1) {
                                                None => {},
                                                Some((id, j4)) => {
                                                    if j4 < s.len() && s[j4] == ',' {
                                                        match parse_str(s, j4 + 1) {
                                                            None => {},
                                                            Some((k3, j5)) => {
                                                                if k3 == "item_meta"@ && j5
                                                                    < s.len() && s[j5] == ':' {
                                                                    lemma_parse_metas_wf(
                                                                        s,
                                                                        j5 + 1,
                                                                    );
                                                                }
                                                            },
                                                        }
                                                    }
                                                },
                                            }
                                        }
                                    },
                                }
                            }
                        },
                    }
                }
            },
        }
    }
}

/// Every record of a parsed record entry list is well-formed.
proof fn lemma_parse_items_entries_wf(s: Seq<char>, i: int)
    ensures
        parse_items_entries(s, i) matches Some((m, _)) ==> forall|k: int|
            0 <= k < m.len() ==> (#[trigger] m[k]).wf(),
    decreases s.len() - i,
{
    match parse_str(s, i) {
        None => {},
        Some((k, j)) => {
            if j < s.len() && s[j] == ':' {
                match parse_item(s, j + 1) {
                    None => {},
                    Some((it, j2)) => {
                        lemma_parse_item_wf(s, j + 1);
                        if k == it.item_id && j2 < s.len() && s[j2] == ',' && j2 + 1 > i {
                            lemma_parse_items_entries_wf(s, j2 + 1);
                            match parse_items_entries(s, j2 + 1) {
                                Some((m, _)) => {
                                    assert forall|q: int|
                                        0 <= q < (seq![it] + m).len() implies (#[trigger] (
                                    seq![it] + m)[q]).wf() by {
                                        if q > 0 {
                                            assert((seq![it] + m)[q] == m[q - 1]);
                                        }
                                    }
                                },
                                None => {},
                            }
                        }
                    },
                }
            }
        },
    }
}

/// A parsed record map holds well-formed records, one per id.
pub proof fn lemma_parse_items_wf(s: Seq<char>, i: int)
    ensures
        parse_items(s, i) matches Some((m, _)) ==> (forall|k: int|
            0 <= k < m.len() ==> (#[trigger] m[k]).wf()) && (forall|a: int, b: int|
            0 <= a < b < m.len() ==> m[a].item_id != m[b].item_id),
{
    if 0 <= i < s.len() && s[i] == '{' && !(i + 1 < s.len() && s[i + 1] == '}') {
        lemma_parse_items_entries_wf(s, i + 1);
    }
}

/// A parsed store is well-formed.
pub proof fn lemma_parse_storage_wf(s: Seq<char>, i: int)
    ensures
        parse_storage(s, i) matches Some((st, _)) ==> st.wf(),
{
    if 0 <= i < s.len() && s[i] == '{' {
        match parse_str(s, i + 1) {
            None => {},
            Some((k1, j1)) => {
                if k1 == "id"@ && j1 < s.len() && s[j1] == ':' {
                    match parse_str(s, j1 + 1) {
                        None => {},
                        Some((id, j2)) => {
                            if j2 < s.len() && s[j2] == ',' {
                                match parse_str(s, j2 + 1) {
                                    None => {},
                                    Some((k2, j3)) => {
                                        if k2 == "items"@ && j3 < s.len() && s[j3] == ':' {
                                            lemma_parse_items_wf(s, j3 + 1);
                                        }
                                    },
                                }
                            }
                        },
                    }
                }
            },
        }
    }
}

/// Whether a parsed record list holds some id twice.
fn item_ids_unique(v: &Vec<Item>) -> (r: bool)
    ensures
        r == (forall|a: int, b: int|
            0 <= a < b < crate::storage::items_view(v@).len()
                ==> (#[trigger] crate::storage::items_view(v@)[a]).item_id != (
            #[trigger] crate::storage::items_view(v@)[b]).item_id),
{
    proof {
        crate::storage::lemma_items_view(v@);
    }
    let n = v.len();
    let mut i: usize = 0;
    while i < n
        invariant
            n == v@.len(),
            i <= n,
            forall|a: int, b: int|
                0 <= a < b < n && a < i ==> (#[trigger] v@[a])@.item_id != (
                #[trigger] v@[b])@.item_id,
        decreases n - i,
    {
        let mut j: usize = i + 1;
        while j < n
            invariant
                n == v@.len(),
                i < n,
                i + 1 <= j <= n,
                forall|a: int, b: int|
                    0 <= a < b < n && a < i ==> (#[trigger] v@[a])@.item_id != (
                    #[trigger] v@[b])@.item_id,
                forall|b: int| i < b < j ==> v@[i as int]@.item_id != (
                #[trigger] v@[b])@.item_id,
            decreases n - j,
        {
            if str_eq(v[i].item_id.as_str(), v[j].item_id.as_str()) {
                proof {
                    crate::storage::lemma_items_view(v@);
                    assert(crate::storage::items_view(v@)[i as int] == v@[i as int]@);
                    assert(crate::storage::items_view(v@)[j as int] == v@[j as int]@);
                }
                return false;
            }
            j = j + 1;
        }
        i = i + 1;
    }
    proof {
        crate::storage::lemma_items_view(v@);
        assert forall|a: int, b: int|
            0 <= a < b < crate::storage::items_view(v@).len() implies (
        #[trigger] crate::storage::items_view(v@)[a]).item_id != (
        #[trigger] crate::storage::items_view(v@)[b]).item_id by {
            assert(crate::storage::items_view(v@)[a] == v@[a]@);
            assert(crate::storage::items_view(v@)[b] == v@[b]@);
        }
    }
    true
}

/// Append the written form of the record map to `out`.
pub fn write_items(out: &mut Vec<char>, items: &Vec<Item>)
    ensures
        final(out)@ == old(out)@ + ser_items(crate::storage::items_view(items@)),
{
    let ghost iv = crate::storage::items_view(items@);
    proof {
        crate::storage::lemma_items_view(items@);
    }
    out.push('{');
    let n = items.len();
    let mut i: usize = 0;
    while i < n
        invariant
            n == items@.len(),
            iv.len() == n,
            i <= n,
            forall|j: int| 0 <= j < n ==> #[trigger] iv[j] == items@[j]@,
            out@ == old(out)@ + seq!['{'] + items_entries(iv.subrange(0, i as int)),
        decreases n - i,
    {
        proof {
            assert(iv.subrange(0, i + 1).drop_last() =~= iv.subrange(0, i as int));
            assert(iv.subrange(0, i + 1).last() == iv[i as int]);
            if i == 0 {
                assert(iv.subrange(0, 1)[0] == iv[0]);
            }
        }
        if i > 0 {
            out.push(',');
        }
        write_str(out, items[i].item_id.as_str());
        out.push(':');
        write_item(out, &items[i]);
        proof {
            assert(out@ =~= old(out)@ + seq!['{'] + items_entries(iv.subrange(0, i + 1)));
        }
        i = i + 1;
    }
    out.push('}');
    proof {
        assert(iv.subrange(0, n as int) =~= iv);
        assert(out@ =~= old(out)@ + ser_items(iv));
    }
}

/// Parse the record map's entries, executably.
fn scan_items_entries(s: &Vec<char>, i: usize) -> (r: Option<(Vec<Item>, usize)>)
    ensures
        match (r, parse_items_entries(s@, i as int)) {
            (Some((m, j)), Some((sm, sj))) => crate::storage::items_view(m@) == sm && j as int
                == sj && j <= s@.len(),
            (None, None) => true,
            _ => false,
        },
    decreases s@.len() - i,
{
    match scan_str(s, i) {
        None => None,
        Some((kc, j)) => {
            if !(j < s.len() && s[j] == ':') {
                None
            } else {
                match scan_item(s, j + 1) {
                    None => None,
                    Some((it, j2)) => {
                        if !str_eq(chars_to_string(&kc).as_str(), it.item_id.as_str()) {
                            None
                        } else if j2 < s.len() && s[j2] == ',' {
                            if j2 + 1 > i {
                                match scan_items_entries(s, j2 + 1) {
                                    Some((mut rest, j3)) => {
                                        let ghost rv = crate::storage::items_view(rest@);
                                        rest.insert(0, it);
                                        proof {
                                            crate::storage::lemma_items_view(rest@);
                                            assert(crate::storage::items_view(rest@) =~= seq![
                                                parse_item(s@, j + 1)->Some_0.0,
                                            ] + rv);
                                        }
                                        Some((rest, j3))
                                    },
                                    None => None,
                                }
                            } else {
                                None
                            }
                        } else if j2 < s.len() && s[j2] == '}' {
                            let mut rest: Vec<Item> = Vec::new();
                            rest.push(it);
                            proof {
                                crate::storage::lemma_items_view(rest@);
                                assert(crate::storage::items_view(rest@) =~= seq![
                                    parse_item(s@, j + 1)->Some_0.0,
                                ]);
                            }
                            Some((rest, j2 + 1))
                        } else {
                            None
                        }
                    },
                }
            }
        },
    }
}

/// Parse the written record map, executably.
pub fn scan_items(s: &Vec<char>, i: usize) -> (r: Option<(Vec<Item>, usize)>)
    ensures
        match (r, parse_items(s@, i as int)) {
            (Some((m, j)), Some((sm, sj))) => crate::storage::items_view(m@) == sm && j as int
                == sj && j <= s@.len(),
            (None, None) => true,
            _ => false,
        },
{
    if !(i < s.len() && s[i] == '{') {
        None
    } else if i + 1 < s.len() && s[i + 1] == '}' {
        let m: Vec<Item> = Vec::new();
        proof {
            crate::storage::lemma_items_view(m@);
            assert(crate::storage::items_view(m@) =~= Seq::<ItemV>::empty());
        }
        Some((m, i + 2))
    } else {
        match scan_items_entries(s, i + 1) {
            Some((m, j)) => {
                if item_ids_unique(&m) {
                    Some((m, j))
                } else {
                    None
                }
            },
            None => None,
        }
    }
}

/// A parsed record map document: the whole input is one written record
/// map.
pub open spec fn parse_items_doc(s: Seq<char>) -> Option<Seq<ItemV>> {
    match parse_items(s, 0) {
        Some((m, j)) => {
            if j == s.len() {
                Some(m)
            } else {
                None
            }
        },
        None => None,
    }
}

/// Round trip for record maps written on their own.
pub proof fn lemma_items_round_trip(items: Seq<ItemV>)
    requires
        forall|k: int| 0 <= k < items.len() ==> (#[trigger] items[k]).wf(),
        forall|a: int, b: int|
            0 <= a < b < items.len() ==> items[a].item_id != items[b].item_id,
    ensures
        parse_items_doc(ser_items(items)) == Some(items),
{
    let s = ser_items(items);
    assert(s.subrange(0, s.len() as int) =~= s);
    lemma_parse_items_of_ser(s, 0, items);
}

/// Write a whole record map document.
pub fn items_to_text(items: &Vec<Item>) -> (r: String)
    ensures
        r@ == ser_items(crate::storage::items_view(items@)),
{
    let mut out: Vec<char> = Vec::new();
    write_items(&mut out, items);
    proof {
        assert(out@ =~= ser_items(crate::storage::items_view(items@)));
    }
    chars_to_string(&out)
}

/// Read a whole record map document back; any other text yields nothing.
pub fn items_from_text(text: &str) -> (r: Option<Vec<Item>>)
    ensures
        match (r, parse_items_doc(text@)) {
            (Some(m), Some(sm)) => crate::storage::items_view(m@) == sm,
            (None, None) => true,
            _ => false,
        },
{
    let chars = str_to_chars(text);
    match scan_items(&chars, 0) {
        Some((m, j)) => {
            if j == chars.len() {
                Some(m)
            } else {
                None
            }
        },
        None => None,
    }
}

/// Write a whole store document.
pub fn storage_to_text(id: &str, items: &Vec<Item>) -> (r: String)
    ensures
        r@ == ser_storage(StorageV { id: id@, items: crate::storage::items_view(items@) }),
{
    let mut out: Vec<char> = Vec::new();
    out.push('{');
    write_str(&mut out, "id");
    out.push(':');
    write_str(&mut out, id);
    out.push(',');
    write_str(&mut out, "items");
    out.push(':');
    write_items(&mut out, items);
    out.push('}');
    proof {
        assert(out@ =~= ser_storage(
            StorageV { id: id@, items: crate::storage::items_view(items@) },
        ));
    }
    chars_to_string(&out)
}

/// Read a whole store document back; any other text yields nothing.
pub fn storage_from_text(text: &str) -> (r: Option<(String, Vec<Item>)>)
    ensures
        match (r, parse_storage_doc(text@)) {
            (Some((id, items)), Some(sv)) => id@ == sv.id && crate::storage::items_view(items@)
                == sv.items,
            (None, None) => true,
            _ => false,
        },
{
    let s = str_to_chars(text);
    if !(0 < s.len() && s[0] == '{') {
        return None;
    }
    match scan_str(&s, 1) {
        None => None,
        Some((k1, j1)) => {
            let k1s = chars_to_string(&k1);
            if !(str_eq(k1s.as_str(), "id") && j1 < s.len() && s[j1] == ':') {
                None
            } else {
                match scan_str(&s, j1 + 1) {
                    None => None,
                    Some((id, j2)) => {
                        if !(j2 < s.len() && s[j2] == ',') {
                            None
                        } else {
                            match scan_str(&s, j2 + 1) {
                                None => None,
                                Some((k2, j3)) => {
                                    let k2s = chars_to_string(&k2);
                                    if !(str_eq(k2s.as_str(), "items") && j3 < s.len() && s[j3]
                                        == ':') {
                                        None
                                    } else {
                                        match scan_items(&s, j3 + 1) {
                                            None => None,
                                            Some((items, j4)) => {
                                                if j4 < s.len() && s[j4] == '}' && j4 + 1
                                                    == s.len() {
                                                    Some((chars_to_string(&id), items))
                                                } else {
                                                    None
                                                }
                                            },
                                        }
                                    }
                                },
                            }
                        }
                    },
                }
            }
        },
    }
}

} // verus!
