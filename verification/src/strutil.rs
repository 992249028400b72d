//! Character-level string utilities: whitespace trimming, single-character
//! search, and the command splicing convention.
//!
//! Splicing is the contract every exec-mode authenticator follows: it owns a
//! fixed-width prefix of the supplied command string, and on success removes
//! exactly that prefix, passing the remainder on unchanged.

use vstd::prelude::*;

verus! {

/// The whitespace characters trimmed from console input and stored codes.
pub open spec fn is_space_char(c: char) -> bool {
    c == ' ' || c == '\t' || c == '\n' || c == '\r'
}

/// `s` without its leading whitespace.
pub open spec fn trim_front_spec(s: Seq<char>) -> Seq<char>
    decreases s.len(),
{
    if s.len() > 0 && is_space_char(s[0]) {
        trim_front_spec(s.drop_first())
    } else {
        s
    }
}

/// `s` without its trailing whitespace.
pub open spec fn trim_back_spec(s: Seq<char>) -> Seq<char>
    decreases s.len(),
{
    if s.len() > 0 && is_space_char(s.last()) {
        trim_back_spec(s.drop_last())
    } else {
        s
    }
}

/// `s` without leading and trailing whitespace.
pub open spec fn trim_spec(s: Seq<char>) -> Seq<char> {
    trim_front_spec(trim_back_spec(s))
}

/// Whether `c` is whitespace, decided in executable code.
pub fn is_space_ch(c: char) -> (b: bool)
    ensures
        b == is_space_char(c),
{
    c == ' ' || c == '\t' || c == '\n' || c == '\r'
}

/// The length of `s` once trailing whitespace is removed.
fn trim_end_index(s: &str) -> (e: usize)
    ensures
        e <= s@.len(),
        trim_back_spec(s@) == s@.take(e as int),
{
    let mut e = s.unicode_len();
    proof {
        assert(s@.take(s@.len() as int) =~= s@);
    }
    while e > 0
        invariant
            e <= s@.len(),
            trim_back_spec(s@) == trim_back_spec(s@.take(e as int)),
        decreases e,
    {
        let c = s.get_char(e - 1);
        if !is_space_ch(c) {
            proof {
                assert(s@.take(e as int).last() == s@[e - 1]);
            }
            return e;
        }
        proof {
            assert(s@.take(e as int).last() == s@[e - 1]);
            assert(s@.take(e as int).drop_last() =~= s@.take(e - 1));
        }
        e = e - 1;
    }
    proof {
        assert(s@.take(0) =~= Seq::<char>::empty());
    }
    0
}

/// The index where `s` starts once leading whitespace is removed.
fn trim_front_index(s: &str) -> (b: usize)
    ensures
        b <= s@.len(),
        trim_front_spec(s@) == s@.skip(b as int),
{
    let n = s.unicode_len();
    let mut b: usize = 0;
    proof {
        assert(s@.skip(0) =~= s@);
    }
    while b < n
        invariant
            b <= n,
            n == s@.len(),
            trim_front_spec(s@) == trim_front_spec(s@.skip(b as int)),
        decreases n - b,
    {
        let c = s.get_char(b);
        if !is_space_ch(c) {
            proof {
                assert(s@.skip(b as int)[0] == s@[b as int]);
            }
            return b;
        }
        proof {
            assert(s@.skip(b as int)[0] == s@[b as int]);
            assert(s@.skip(b as int).drop_first() =~= s@.skip(b + 1));
        }
        b = b + 1;
    }
    proof {
        assert(s@.skip(n as int) =~= Seq::<char>::empty());
    }
    n
}

/// Remove trailing whitespace, as console input lines are cleaned.
pub fn trim_end(s: &str) -> (r: String)
    ensures
        r@ == trim_back_spec(s@),
{
    let e = trim_end_index(s);
    String::from_str(s.substring_char(0, e))
}

/// Remove leading and trailing whitespace, as stored codes are cleaned.
pub fn trim(s: &str) -> (r: String)
    ensures
        r@ == trim_spec(s@),
{
    let e = trim_end_index(s);
    let t = s.substring_char(0, e);
    let b = trim_front_index(t);
    String::from_str(t.substring_char(b, e))
}

/// The index of the first occurrence of `c` in `s`, if any.
pub fn find_char(s: &str, c: char) -> (r: Option<usize>)
    ensures
        r matches Some(i) ==> i < s@.len() && s@[i as int] == c && forall|j: int|
            0 <= j < i ==> s@[j] != c,
        r is None ==> forall|j: int| 0 <= j < s@.len() ==> s@[j] != c,
{
    let n = s.unicode_len();
    let mut i: usize = 0;
    while i < n
        invariant
            i <= n,
            n == s@.len(),
            forall|j: int| 0 <= j < i ==> s@[j] != c,
        decreases n - i,
    {
        if s.get_char(i) == c {
            return Some(i);
        }
        i = i + 1;
    }
    None
}

/// The index of the last occurrence of `c` in `s`, if any.
pub fn rfind_char(s: &str, c: char) -> (r: Option<usize>)
    ensures
        r matches Some(i) ==> i < s@.len() && s@[i as int] == c && forall|j: int|
            i < j < s@.len() ==> s@[j] != c,
        r is None ==> forall|j: int| 0 <= j < s@.len() ==> s@[j] != c,
{
    let n = s.unicode_len();
    let mut i = n;
    while i > 0
        invariant
            i <= n,
            n == s@.len(),
            forall|j: int| i <= j < s@.len() ==> s@[j] != c,
        decreases i,
    {
        if s.get_char(i - 1) == c {
            return Some(i - 1);
        }
        i = i - 1;
    }
    None
}

/// Whether `c` occurs anywhere in `s`.
pub fn contains_char(s: &str, c: char) -> (b: bool)
    ensures
        b == exists|j: int| 0 <= j < s@.len() && s@[j] == c,
{
    match find_char(s, c) {
        Some(i) => {
            proof {
                assert(s@[i as int] == c);
            }
            true
        },
        None => false,
    }
}

/// Split a command string after its first `n` characters: the owned prefix
/// and the untouched remainder.  A command shorter than `n` cannot be
/// spliced and is handed back as `None`.
pub fn splice_prefix(cmd: &str, n: usize) -> (r: Option<(String, String)>)
    ensures
        r is Some <==> n <= cmd@.len(),
        r matches Some(pr) ==> pr.0@ == cmd@.take(n as int) && pr.1@ == cmd@.skip(n as int),
{
    let len = cmd.unicode_len();
    if n > len {
        return None;
    }
    let p = String::from_str(cmd.substring_char(0, n));
    let rest = String::from_str(cmd.substring_char(n, len));
    proof {
        assert(cmd@.subrange(0, n as int) =~= cmd@.take(n as int));
        assert(cmd@.subrange(n as int, cmd@.len() as int) =~= cmd@.skip(n as int));
    }
    Some((p, rest))
}

/// The splicing convention is lossless: the removed prefix and the
/// remainder reassemble to the original command, so a successful splice
/// removed exactly the first `n` characters and altered nothing after them.
pub proof fn lemma_splice_round_trip(cmd: Seq<char>, n: int)
    requires
        0 <= n <= cmd.len(),
    ensures
        cmd.take(n) + cmd.skip(n) =~= cmd,
        cmd.skip(n).len() == cmd.len() - n,
        forall|k: int| 0 <= k < cmd.len() - n ==> cmd.skip(n)[k] == cmd[n + k],
{
}

/// The whitespace-separated tokens of a string, in order, with empty
/// tokens collapsed away.
pub open spec fn split_ws_spec(s: Seq<char>) -> Seq<Seq<char>>
    decreases s.len(),
{
    if s.len() == 0 {
        Seq::<Seq<char>>::empty()
    } else if is_space_char(s[0]) {
        split_ws_spec(s.drop_first())
    } else if s.len() == 1 {
        seq![seq![s[0]]]
    } else if is_space_char(s[1]) {
        seq![seq![s[0]]] + split_ws_spec(s.drop_first())
    } else {
        let rest = split_ws_spec(s.drop_first());
        seq![seq![s[0]] + rest[0]] + rest.drop_first()
    }
}

proof fn lemma_split_ws_nonempty(s: Seq<char>)
    requires
        s.len() > 0,
        !is_space_char(s[0]),
    ensures
        split_ws_spec(s).len() >= 1,
    decreases s.len(),
{
    if s.len() > 1 && !is_space_char(s[1]) {
        lemma_split_ws_nonempty(s.drop_first());
    }
}

/// The tokens still to come, given a token begun but not yet finished.
pub open spec fn split_ws_state(cur: Seq<char>, rem: Seq<char>) -> Seq<Seq<char>> {
    if cur.len() == 0 {
        split_ws_spec(rem)
    } else if rem.len() > 0 && !is_space_char(rem[0]) {
        seq![cur + split_ws_spec(rem)[0]] + split_ws_spec(rem).drop_first()
    } else {
        seq![cur] + split_ws_spec(rem)
    }
}

/// Split a string at whitespace, as shell argument lists and registry
/// files are read.
pub fn split_ws(s: &str) -> (r: Vec<String>)
    ensures
        r@.map_values(|t: String| t@) == split_ws_spec(s@),
{
    let n = s.unicode_len();
    let mut tokens: Vec<String> = Vec::new();
    let mut cur = String::new();
    let mut i: usize = 0;
    proof {
        assert(s@.skip(0) =~~= s@);
        assert(tokens@.map_values(|t: String| t@) =~~= Seq::<Seq<char>>::empty());
    }
    while i < n
        invariant
            i <= n,
            n == s@.len(),
            split_ws_spec(s@) =~~= tokens@.map_values(|t: String| t@) + split_ws_state(
                cur@,
                s@.skip(i as int),
            ),
        decreases n - i,
    {
        let ghost rem = s@.skip(i as int);
        let ghost rem2 = s@.skip(i + 1);
        proof {
            assert(rem[0] == s@[i as int]);
            assert(rem.drop_first() =~~= rem2);
            if rem.len() > 1 {
                assert(rem[1] == rem2[0]);
            }
        }
        let c = s.get_char(i);
        if is_space_ch(c) {
            if cur.as_str().unicode_len() == 0 {
                proof {
                    assert(split_ws_state(cur@, rem) =~~= split_ws_state(cur@, rem2));
                }
            } else {
                proof {
                    assert(split_ws_state(cur@, rem) =~~= seq![cur@] + split_ws_spec(rem2));
                    assert((tokens@.push(cur)).map_values(|t: String| t@) =~~= tokens@.map_values(
                        |t: String| t@,
                    ).push(cur@));
                    assert(split_ws_state(Seq::<char>::empty(), rem2) =~~= split_ws_spec(rem2));
                }
                tokens.push(cur);
                cur = String::new();
            }
        } else {
            proof {
                if rem.len() > 1 && !is_space_char(rem[1]) {
                    lemma_split_ws_nonempty(rem2);
                    assert(split_ws_spec(rem) =~~= seq![seq![rem[0]] + split_ws_spec(rem2)[0]]
                        + split_ws_spec(rem2).drop_first());
                    if cur@.len() == 0 {
                        assert(cur@ + (seq![rem[0]] + split_ws_spec(rem2)[0]) =~~= cur@.push(rem[0])
                            + split_ws_spec(rem2)[0]);
                        assert(split_ws_state(cur@, rem) =~~= split_ws_state(cur@.push(c), rem2));
                    } else {
                        assert(cur@ + (seq![rem[0]] + split_ws_spec(rem2)[0]) =~~= cur@.push(rem[0])
                            + split_ws_spec(rem2)[0]);
                        assert(split_ws_state(cur@, rem) =~~= split_ws_state(cur@.push(c), rem2));
                    }
                } else {
                    if rem.len() == 1 {
                        assert(split_ws_spec(rem) =~~= seq![seq![rem[0]]]);
                        assert(rem2 =~~= Seq::<char>::empty());
                        assert(split_ws_state(cur@, rem) =~~= seq![cur@.push(c)]);
                        assert(split_ws_state(cur@.push(c), rem2) =~~= seq![cur@.push(c)]);
                    } else {
                        assert(split_ws_spec(rem) =~~= seq![seq![rem[0]]] + split_ws_spec(rem2));
                        assert(cur@ + seq![rem[0]] =~~= cur@.push(c));
                        assert(split_ws_state(cur@, rem) =~~= seq![cur@.push(c)] + split_ws_spec(
                            rem2,
                        ));
                        assert(split_ws_state(cur@.push(c), rem2) =~~= seq![cur@.push(c)]
                            + split_ws_spec(rem2));
                    }
                }
            }
            cur.push(c);
        }
        i = i + 1;
    }
    proof {
        assert(s@.skip(n as int) =~~= Seq::<char>::empty());
    }
    if cur.as_str().unicode_len() == 0 {
        proof {
            assert(split_ws_state(cur@, Seq::<char>::empty()) =~~= Seq::<Seq<char>>::empty());
        }
        tokens
    } else {
        proof {
            assert(split_ws_state(cur@, Seq::<char>::empty()) =~~= seq![cur@]);
            assert((tokens@.push(cur)).map_values(|t: String| t@) =~~= tokens@.map_values(
                |t: String| t@,
            ).push(cur@));
        }
        tokens.push(cur);
        tokens
    }
}

/// Whether a whitespace-separated registry (such as the system's shell
/// list) names the given entry.
pub fn ws_list_contains(content: &str, entry: &String) -> (b: bool)
    ensures
        b == split_ws_spec(content@).contains(entry@),
{
    let tokens = split_ws(content);
    let k = tokens.len();
    let mut j: usize = 0;
    while j < k
        invariant
            j <= k,
            k == tokens@.len(),
            tokens@.map_values(|t: String| t@) == split_ws_spec(content@),
            forall|x: int| 0 <= x < j ==> split_ws_spec(content@)[x] != entry@,
        decreases k - j,
    {
        if tokens[j] == *entry {
            proof {
                assert(split_ws_spec(content@)[j as int] == tokens@[j as int]@);
            }
            return true;
        }
        proof {
            assert(split_ws_spec(content@)[j as int] == tokens@[j as int]@);
        }
        j = j + 1;
    }
    false
}

/// The text inside the outermost parentheses: from the first `(` to the
/// last `)`, when the two exist in that order.  This is how a remote
/// address is read out of a `who`-style report.
pub fn extract_parenthesized(s: &str) -> (r: Option<String>)
    ensures
        r matches Some(t) ==> exists|i: int, j: int|
            0 <= i < j < s@.len() && s@[i] == '(' && s@[j] == ')' && (forall|k: int|
                0 <= k < i ==> s@[k] != '(') && (forall|k: int| j < k < s@.len() ==> s@[k] != ')')
                && t@ == s@.subrange(i + 1, j),
        r is None ==> !exists|i: int, j: int|
            0 <= i < j < s@.len() && s@[i] == '(' && s@[j] == ')',
{
    let open = find_char(s, '(');
    let close = rfind_char(s, ')');
    match (open, close) {
        (Some(i), Some(j)) => {
            if i < j {
                let t = String::from_str(s.substring_char(i + 1, j));
                proof {
                    let iv = i as int;
                    let jv = j as int;
                    assert(0 <= iv < jv < s@.len() && s@[iv] == '(' && s@[jv] == ')' && (forall|
                        k: int,
                    |
                        0 <= k < iv ==> s@[k] != '(') && (forall|k: int|
                        jv < k < s@.len() ==> s@[k] != ')') && t@ == s@.subrange(iv + 1, jv));
                }
                Some(t)
            } else {
                proof {
                    assert forall|iv: int, jv: int|
                        !(0 <= iv < jv < s@.len() && s@[iv] == '(' && s@[jv] == ')') by {
                        if 0 <= iv < jv < s@.len() && s@[iv] == '(' && s@[jv] == ')' {
                            assert(iv >= i as int);
                            assert(jv <= j as int);
                        }
                    }
                }
                None
            }
        },
        _ => {
            proof {
                assert forall|iv: int, jv: int|
                    !(0 <= iv < jv < s@.len() && s@[iv] == '(' && s@[jv] == ')') by {
                    if 0 <= iv < jv < s@.len() && s@[iv] == '(' && s@[jv] == ')' {
                    }
                }
            }
            None
        },
    }
}

} // verus!
