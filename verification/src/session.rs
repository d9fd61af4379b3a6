use vstd::prelude::*;

verus! {

/// The least index of `ch` in `s`, or the length of `s` when `ch` does not
/// occur.
pub open spec fn index_of(s: Seq<char>, ch: char) -> int
    decreases s.len(),
{
    if s.len() == 0 {
        0
    } else if s.first() == ch {
        0
    } else {
        1 + index_of(s.drop_first(), ch)
    }
}

/// `index_of` is pinned down by what an index scan finds: nothing but misses
/// before `k`, and a hit at `k` unless `k` is the length.
pub proof fn lemma_index_of_unique(s: Seq<char>, ch: char, k: int)
    requires
        0 <= k <= s.len(),
        forall|j: int| 0 <= j < k ==> s[j] != ch,
        k < s.len() ==> s[k] == ch,
    ensures
        index_of(s, ch) == k,
    decreases s.len(),
{
    if s.len() == 0 {
    } else if s.first() == ch {
        if k > 0 {
            assert(s[0] != ch);
        }
    } else {
        if k == 0 {
            assert(s[0] == ch);
        }
        assert forall|j: int| 0 <= j < k - 1 implies s.drop_first()[j] != ch by {
            assert(s.drop_first()[j] == s[j + 1]);
        }
        assert(k - 1 < s.drop_first().len() ==> s.drop_first()[k - 1] == ch);
        lemma_index_of_unique(s.drop_first(), ch, k - 1);
    }
}

/// The session token one cookie line yields: the text between the first and
/// second `=`, provided the text before the first `=` is exactly `token`.
pub open spec fn cookie_token(s: Seq<char>) -> Option<Seq<char>> {
    let i = index_of(s, '=');
    if i == s.len() {
        None
    } else if s.take(i) == "token"@ {
        let rest = s.skip(i + 1);
        Some(rest.take(index_of(rest, '=')))
    } else {
        None
    }
}

/// The token of the first cookie line that yields one.
pub open spec fn first_token(cookies: Seq<Seq<char>>) -> Option<Seq<char>>
    decreases cookies.len(),
{
    if cookies.len() == 0 {
        None
    } else if cookie_token(cookies.first()) is Some {
        cookie_token(cookies.first())
    } else {
        first_token(cookies.drop_first())
    }
}

/// The least index not below `from` at which `c` stands in `s`, or the length
/// of `s` when `c` does not stand anywhere from `from` on.
fn find_char(s: &str, from: usize, c: char) -> (k: usize)
    requires
        from <= s@.len(),
    ensures
        from <= k <= s@.len(),
        forall|j: int| from <= j < k ==> s@[j] != c,
        k < s@.len() ==> s@[k as int] == c,
{
    let n = s.unicode_len();
    let mut i: usize = from;
    while i < n
        invariant
            from <= i <= n,
            forall|j: int| from <= j < i ==> s@[j] != c,
        decreases n - i,
    {
        if s.get_char(i) == c {
            return i;
        }
        i += 1;
    }
    i
}

/// The session token of one cookie line, as `cookie_token` describes it.
pub fn cookie_token_of(s: &str) -> (r: Option<String>)
    ensures
        (match r {
            Some(t) => cookie_token(s@) == Some(t@),
            None => cookie_token(s@) is None,
        }),
{
    let n = s.unicode_len();
    let first_eq = find_char(s, 0, '=');
    proof {
        lemma_index_of_unique(s@, '=', first_eq as int);
    }
    if first_eq == n {
        return None;
    }
    let prefix = s.substring_char(0, first_eq).to_owned();
    let key = "token".to_owned();
    if !(prefix == key) {
        proof {
            assert(s@.take(first_eq as int) =~= prefix@);
        }
        return None;
    }
    let second_eq = find_char(s, first_eq + 1, '=');
    let value = s.substring_char(first_eq + 1, second_eq).to_owned();
    proof {
        let rest = s@.skip(first_eq + 1);
        assert forall|j: int| 0 <= j < second_eq - first_eq - 1 implies rest[j] != '=' by {
            assert(rest[j] == s@[first_eq + 1 + j]);
        }
        assert(second_eq - first_eq - 1 < rest.len() ==> rest[second_eq - first_eq - 1] == '=');
        lemma_index_of_unique(rest, '=', second_eq - first_eq - 1);
        assert(s@.take(first_eq as int) =~= prefix@);
        assert(value@ =~= rest.take(index_of(rest, '=')));
    }
    Some(value)
}

/// The session token carried by a list of cookie lines: the token of the
/// first line of the shape `token=...`, cut off at any further `=`.
pub fn extract_token(cookies: &Vec<String>) -> (r: Option<String>)
    ensures
        (match r {
            Some(t) => first_token(cookies@.map_values(|s: String| s@)) == Some(t@),
            None => first_token(cookies@.map_values(|s: String| s@)) is None,
        }),
{
    let ghost cs = cookies@.map_values(|s: String| s@);
    proof {
        assert(cs.skip(0) =~= cs);
    }
    let mut i: usize = 0;
    while i < cookies.len()
        invariant
            i <= cookies.len(),
            first_token(cs) == first_token(cs.skip(i as int)),
        decreases cookies.len() - i,
    {
        proof {
            assert(cs.skip(i as int).first() == cs[i as int]);
        }
        let token = cookie_token_of(cookies[i].as_str());
        match token {
            Some(value) => {
                return Some(value);
            },
            None => {
                proof {
                    assert(cs.skip(i as int).drop_first() =~= cs.skip(i + 1));
                }
            },
        }
        i += 1;
    }
    None
}

} // verus!
