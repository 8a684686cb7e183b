use vstd::prelude::*;
use crate::seqs::{first_index, lemma_first_index, lemma_first_index_at};
use crate::text::{chars_of, string_from_chars};

verus! {

broadcast use vstd::string::group_string_axioms;

/// The `.json` file extension.
pub open spec fn json_ext() -> Seq<char> {
    seq!['.', 'j', 's', 'o', 'n']
}

/// Whether `s` ends with `suffix`.
pub open spec fn ends_with(s: Seq<char>, suffix: Seq<char>) -> bool {
    s.len() >= suffix.len() && s.subrange(s.len() - suffix.len(), s.len() as int) == suffix
}

/// `s` with every trailing repetition of `suffix` removed, as `trim_end_matches` does.
pub open spec fn strip_suffixes(s: Seq<char>, suffix: Seq<char>) -> Seq<char>
    decreases s.len(),
{
    if suffix.len() > 0 && ends_with(s, suffix) {
        strip_suffixes(s.subrange(0, s.len() - suffix.len()), suffix)
    } else {
        s
    }
}

/// Characters equal to `c`.
pub open spec fn is_char(c: char) -> spec_fn(char) -> bool {
    |x: char| x == c
}

/// The pieces of `s` between occurrences of `c`, as `str::split` gives them.
pub open spec fn split_on(s: Seq<char>, c: char) -> Seq<Seq<char>>
    decreases s.len(),
{
    match first_index(s, is_char(c)) {
        None => seq![s],
        Some(k) => {
            proof {
                lemma_first_index(s, is_char(c));
            }
            seq![s.take(k)] + split_on(s.skip(k + 1), c)
        },
    }
}

/// The other party of the conversation a chat file belongs to, when the file is named
/// `<a>_<b>.json` and `username` is one of the two.
pub open spec fn conversation_partner(file_name: Seq<char>, username: Seq<char>) -> Option<Seq<char>> {
    if !ends_with(file_name, json_ext()) {
        None
    } else {
        let parts = split_on(strip_suffixes(file_name, json_ext()), '_');
        if parts.len() != 2 || !parts.contains(username) {
            None
        } else if parts[0] == username {
            Some(parts[1])
        } else {
            Some(parts[0])
        }
    }
}

fn ends_with_json(cs: &Vec<char>, n: usize) -> (r: bool)
    requires
        n <= cs@.len(),
    ensures
        r == ends_with(cs@.take(n as int), json_ext()),
{
    if n < 5 {
        return false;
    }
    let r = cs[n - 5] == '.' && cs[n - 4] == 'j' && cs[n - 3] == 's' && cs[n - 2] == 'o' && cs[n - 1] == 'n';
    let ghost t = cs@.take(n as int);
    assert(r == (t.subrange(t.len() - 5, t.len() as int) =~= json_ext()));
    r
}

proof fn lemma_split_none(s: Seq<char>, c: char)
    requires
        forall|j: int| 0 <= j < s.len() ==> s[j] != c,
    ensures
        split_on(s, c) == seq![s],
{
    lemma_first_index_at(s, is_char(c), s.len() as int);
}

proof fn lemma_split_len(s: Seq<char>, c: char)
    ensures
        split_on(s, c).len() >= 1,
    decreases s.len(),
{
    lemma_first_index(s, is_char(c));
    if let Some(k) = first_index(s, is_char(c)) {
        lemma_split_len(s.skip(k + 1), c);
    }
}

/// Finds the first occurrence of `c` in `cs[from..to]`.
fn find_char(cs: &Vec<char>, c: char, from: usize, to: usize) -> (r: Option<usize>)
    requires
        from <= to <= cs@.len(),
    ensures
        match r {
            Some(k) => from <= k < to && cs@[k as int] == c && forall|j: int| from <= j < k ==> cs@[j] != c,
            None => forall|j: int| from <= j < to ==> cs@[j] != c,
        },
{
    let mut i = from;
    while i < to
        invariant
            from <= i <= to,
            to <= cs@.len(),
            forall|j: int| from <= j < i ==> cs@[j] != c,
        decreases to - i,
    {
        if cs[i] == c {
            return Some(i);
        }
        i = i + 1;
    }
    None
}

fn chars_between(cs: &Vec<char>, from: usize, to: usize) -> (s: String)
    requires
        from <= to <= cs@.len(),
    ensures
        s@ == cs@.subrange(from as int, to as int),
{
    let mut out: Vec<char> = Vec::new();
    let mut k = from;
    while k < to
        invariant
            from <= k <= to,
            to <= cs@.len(),
            out@ == cs@.subrange(from as int, k as int),
        decreases to - k,
    {
        out.push(cs[k]);
        assert(out@ =~= cs@.subrange(from as int, k + 1));
        k = k + 1;
    }
    string_from_chars(&out)
}

/// The other party of the conversation stored in the chat file `file_name`, if the
/// file belongs to a conversation of `username`.
pub fn conversation_partner_of(file_name: &str, username: &str) -> (r: Option<String>)
    ensures
        match r {
            Some(o) => conversation_partner(file_name@, username@) == Some(o@),
            None => conversation_partner(file_name@, username@) is None,
        },
{
    let cs = chars_of(file_name);
    assert(cs@.take(cs@.len() as int) =~= cs@);
    if !ends_with_json(&cs, cs.len()) {
        return None;
    }
    let mut n: usize = cs.len();
    while ends_with_json(&cs, n)
        invariant
            n <= cs@.len(),
            strip_suffixes(cs@, json_ext()) == strip_suffixes(cs@.take(n as int), json_ext()),
        decreases n,
    {
        assert(cs@.take(n as int).subrange(0, n - 5) =~= cs@.take(n - 5));
        n = n - 5;
    }
    let ghost stem = cs@.take(n as int);
    assert(strip_suffixes(cs@, json_ext()) == stem);
    let first = find_char(&cs, '_', 0, n);
    match first {
        None => {
            proof {
                lemma_split_none(stem, '_');
            }
            None
        },
        Some(k) => {
            proof {
                lemma_first_index_at(stem, is_char('_'), k as int);
                lemma_split_len(stem.skip(k + 1), '_');
            }
            let second = find_char(&cs, '_', k + 1, n);
            if second.is_some() {
                proof {
                    let rest = stem.skip(k + 1);
                    let k2 = second.unwrap() - k - 1;
                    lemma_first_index_at(rest, is_char('_'), k2);
                    lemma_split_len(rest.skip(k2 + 1), '_');
                }
                return None;
            }
            proof {
                let rest = stem.skip(k + 1);
                lemma_split_none(rest, '_');
            }
            let a = chars_between(&cs, 0, k);
            let b = chars_between(&cs, k + 1, n);
            let ghost parts = split_on(stem, '_');
            assert(a@ =~= stem.take(k as int));
            assert(b@ =~= stem.skip(k + 1));
            assert(parts == seq![stem.take(k as int)] + seq![stem.skip(k + 1)]);
            assert(parts =~= seq![a@, b@]);
            if a == username.to_string() {
                Some(b)
            } else if b == username.to_string() {
                Some(a)
            } else {
                None
            }
        },
    }
}

} // verus!
