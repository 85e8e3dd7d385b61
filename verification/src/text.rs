use vstd::prelude::*;

verus! {

/// The separators the line protocol recognizes between tokens.
pub open spec fn is_space(c: char) -> bool {
    c == ' ' || c == '\t' || c == '\n' || c == '\r'
}

/// Executable test for a separator character.
pub fn is_space_char(c: char) -> (r: bool)
    ensures
        r == is_space(c),
{
    c == ' ' || c == '\t' || c == '\n' || c == '\r'
}

/// Length of the leading run of non-separator characters.
pub open spec fn token_len(s: Seq<char>) -> nat
    decreases s.len(),
{
    if s.len() == 0 || is_space(s[0]) {
        0
    } else {
        (1 + token_len(s.drop_first())) as nat
    }
}

pub proof fn lemma_token_len_bound(s: Seq<char>)
    ensures
        token_len(s) <= s.len(),
    decreases s.len(),
{
    if s.len() != 0 && !is_space(s[0]) {
        lemma_token_len_bound(s.drop_first());
    }
}

/// The leading run length is pinned down by where the first separator stands.
pub proof fn lemma_token_len_exact(s: Seq<char>, m: nat)
    requires
        m <= s.len(),
        forall|k: int| 0 <= k < m ==> !is_space(s[k]),
        m < s.len() ==> is_space(s[m as int]),
    ensures
        token_len(s) == m,
    decreases m,
{
    if m == 0 {
    } else {
        assert(!is_space(s[0]));
        lemma_token_len_exact(s.drop_first(), (m - 1) as nat);
    }
}

/// The whitespace-delimited tokens of a line, in order. A line of only
/// separators has no tokens.
pub open spec fn tokens_of(s: Seq<char>) -> Seq<Seq<char>>
    decreases s.len(),
    via tokens_of_decreases
{
    if s.len() == 0 {
        Seq::empty()
    } else if is_space(s[0]) {
        tokens_of(s.drop_first())
    } else {
        seq![s.take(token_len(s) as int)] + tokens_of(s.skip(token_len(s) as int))
    }
}

#[via_fn]
proof fn tokens_of_decreases(s: Seq<char>) {
    if s.len() != 0 && !is_space(s[0]) {
        lemma_token_len_bound(s);
        assert(token_len(s) >= 1);
    }
}

/// The line-terminator sequence of the wire protocol.
pub open spec fn newline() -> Seq<char> {
    "\n"@
}

/// `s` with its leading separators dropped.
pub open spec fn trim_front(s: Seq<char>) -> Seq<char>
    decreases s.len(),
{
    if s.len() > 0 && is_space(s[0]) {
        trim_front(s.drop_first())
    } else {
        s
    }
}

/// `s` with its trailing separators dropped.
pub open spec fn trim_back(s: Seq<char>) -> Seq<char>
    decreases s.len(),
{
    if s.len() > 0 && is_space(s.last()) {
        trim_back(s.drop_last())
    } else {
        s
    }
}

/// `s` with surrounding separators dropped.
pub open spec fn trim_of(s: Seq<char>) -> Seq<char> {
    trim_back(trim_front(s))
}

/// Strip surrounding whitespace from a line, as the nickname handshake does.
pub fn trim_line(line: &str) -> (r: String)
    ensures
        r@ == trim_of(line@),
{
    let n = line.unicode_len();
    let mut a: usize = 0;
    proof {
        assert(line@.skip(0) =~= line@);
    }
    while a < n && is_space_char(line.get_char(a))
        invariant
            a <= n,
            n == line@.len(),
            trim_front(line@) == trim_front(line@.skip(a as int)),
        decreases n - a,
    {
        proof {
            assert(line@.skip(a as int).drop_first() =~= line@.skip(a as int + 1));
        }
        a = a + 1;
    }
    proof {
        if a == n {
            assert(line@.skip(a as int) =~= Seq::<char>::empty());
        }
        assert(trim_front(line@) == line@.skip(a as int));
        assert(line@.subrange(a as int, n as int) =~= line@.skip(a as int));
    }
    let mut b: usize = n;
    while b > a && is_space_char(line.get_char(b - 1))
        invariant
            a <= b <= n,
            n == line@.len(),
            trim_back(line@.skip(a as int)) == trim_back(line@.subrange(a as int, b as int)),
        decreases b,
    {
        proof {
            assert(line@.subrange(a as int, b as int).drop_last() =~= line@.subrange(
                a as int,
                b as int - 1,
            ));
        }
        b = b - 1;
    }
    proof {
        if b == a {
            assert(line@.subrange(a as int, b as int) =~= Seq::<char>::empty());
        }
        assert(trim_of(line@) == line@.subrange(a as int, b as int));
    }
    let r = line.substring_char(a, b);
    r.to_owned()
}

/// Split one line of input into its whitespace-delimited tokens.
pub fn split_tokens(line: &str) -> (tokens: Vec<String>)
    ensures
        tokens@.map_values(|t: String| t@) == tokens_of(line@),
{
    let r = split_from(line, 0);
    proof {
        assert(line@.skip(0) =~= line@);
    }
    r
}

fn split_from(line: &str, i: usize) -> (tokens: Vec<String>)
    requires
        i <= line@.len(),
    ensures
        tokens@.map_values(|t: String| t@) == tokens_of(line@.skip(i as int)),
    decreases line@.len() - i,
{
    let n = line.unicode_len();
    if i == n {
        let tokens: Vec<String> = Vec::new();
        proof {
            assert(line@.skip(i as int) =~= Seq::<char>::empty());
            assert(tokens@.map_values(|t: String| t@) =~= tokens_of(line@.skip(i as int)));
        }
        tokens
    } else {
        let c = line.get_char(i);
        if is_space_char(c) {
            let tokens = split_from(line, i + 1);
            proof {
                assert(line@.skip(i as int).drop_first() =~= line@.skip(i as int + 1));
            }
            tokens
        } else {
            let mut j: usize = i + 1;
            while j < n && !is_space_char(line.get_char(j))
                invariant
                    i < j <= n,
                    n == line@.len(),
                    forall|k: int| i <= k < j ==> !is_space(line@[k]),
                decreases n - j,
            {
                j = j + 1;
            }
            let ghost s = line@.skip(i as int);
            proof {
                assert forall|k: int| 0 <= k < j - i implies !is_space(s[k]) by {
                    assert(s[k] == line@[i + k]);
                }
                if j < n {
                    assert(is_space(line@[j as int]));
                    assert(s[(j - i) as int] == line@[j as int]);
                }
                lemma_token_len_exact(s, (j - i) as nat);
            }
            let tok = line.substring_char(i, j);
            let tok_s = tok.to_owned();
            let mut tokens = split_from(line, j);
            let ghost rest_map = tokens@.map_values(|t: String| t@);
            tokens.insert(0, tok_s);
            proof {
                assert(s.take((j - i) as int) =~= line@.subrange(i as int, j as int));
                assert(s.skip((j - i) as int) =~= line@.skip(j as int));
                assert(tokens@.map_values(|t: String| t@) =~= seq![tok_s@] + rest_map);
                assert(seq![tok_s@] + rest_map =~= tokens_of(s));
            }
            tokens
        }
    }
}

} // verus!
