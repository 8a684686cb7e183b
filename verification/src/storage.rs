use vstd::prelude::*;
use crate::text::{chars_of, lemma_seq_lt_asymmetric, lemma_seq_lt_total, seq_lt, str_lt};

verus! {

broadcast use vstd::string::group_string_axioms;

/// A JSON file holding one value of type `T`.
pub struct JsonStore<T> {
    path: String,
    _marker: core::marker::PhantomData<T>,
}

impl<T> JsonStore<T> {
    /// The store kept at `path`.
    pub fn new(path: &str) -> (s: Self)
        ensures
            s.path_view() == path@,
    {
        JsonStore { path: path.to_string(), _marker: core::marker::PhantomData }
    }

    /// The location of the file.
    pub closed spec fn path_view(&self) -> Seq<char> {
        self.path@
    }

    /// The location of the file.
    pub fn path(&self) -> (p: &str)
        ensures
            p@ == self.path_view(),
    {
        self.path.as_str()
    }
}

/// `base` extended by `name` as `Path::join` does on Unix: an absolute `name` replaces
/// `base`, and a separator goes between them unless `base` is empty or already ends in one.
pub open spec fn path_join(base: Seq<char>, name: Seq<char>) -> Seq<char> {
    if name.len() > 0 && name[0] == '/' {
        name
    } else if base.len() == 0 || base.last() == '/' {
        base + name
    } else {
        base + "/"@ + name
    }
}

/// `base` extended by `name`.
pub fn join_path(base: &str, name: &str) -> (r: String)
    ensures
        r@ == path_join(base@, name@),
{
    let n = chars_of(name);
    let b = chars_of(base);
    if n.len() > 0 && n[0] == '/' {
        return name.to_string();
    }
    if b.len() == 0 || b[b.len() - 1] == '/' {
        base.to_string().concat(name)
    } else {
        base.to_string().concat("/").concat(name)
    }
}

/// The name of the file holding the conversation of `a` and `b`: the two names in
/// increasing order, joined by `_`, with `.json` after them.
pub open spec fn conversation_file_name(a: Seq<char>, b: Seq<char>) -> Seq<char> {
    if seq_lt(b, a) {
        b + "_"@ + a + ".json"@
    } else {
        a + "_"@ + b + ".json"@
    }
}

/// A conversation is stored in one file whichever of its two participants is named first.
pub proof fn law_conversation_file_symmetric(a: Seq<char>, b: Seq<char>)
    ensures
        conversation_file_name(a, b) == conversation_file_name(b, a),
{
    if a != b {
        lemma_seq_lt_total(a, b);
        if seq_lt(a, b) {
            lemma_seq_lt_asymmetric(a, b);
        } else {
            lemma_seq_lt_asymmetric(b, a);
        }
    }
}

/// The file under `base` holding the conversation of `a` and `b`, the same whichever
/// of the two is named first.
pub fn make_conv_path(base: &str, a: &str, b: &str) -> (r: String)
    ensures
        r@ == path_join(base@, conversation_file_name(a@, b@)),
{
    let (first, second) = if str_lt(b, a) { (b, a) } else { (a, b) };
    let name = first.to_string().concat("_").concat(second).concat(".json");
    join_path(base, name.as_str())
}

} // verus!
