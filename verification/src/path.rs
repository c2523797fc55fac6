//! Paths as texts: separators, normal forms and relative names.

use vstd::prelude::*;

verus! {

broadcast use vstd::string::group_string_axioms;

/// Appends one character with `String::push`, which the standard library
/// documents as appending the given character to the end of the string.
#[verifier::external_body]
pub(crate) fn push_char(s: &mut String, c: char)
    ensures
        final(s)@ == old(s)@.push(c),
{
    s.push(c)
}

/// A character that git or Windows may use between the parts of a path.
pub open spec fn is_slash(c: char) -> bool {
    c == '/' || c == '\\'
}

/// The character at one position of a normalized path.
pub open spec fn normalized_char(c: char, sep: char) -> char {
    if is_slash(c) {
        sep
    } else {
        c
    }
}

/// A path with every forward slash and backslash replaced by `sep`.
pub open spec fn normalized(path: Seq<char>, sep: char) -> Seq<char> {
    Seq::new(path.len(), |i: int| normalized_char(path[i], sep))
}

/// Rewrites a path recorded in a tree so that `sep` stands between its parts.
pub fn normalize_path(path: &str, sep: char) -> (out: String)
    ensures
        out@ == normalized(path@, sep),
{
    let mut out = String::new();
    let chars = path.chars();
    for c in it: chars
        invariant
            it.seq() == path@,
            out@ == normalized(path@.take(it.index() as int), sep),
    {
        push_char(&mut out, if c == '/' || c == '\\' { sep } else { c });
    }
    out
}

/// A normalized path has `sep` wherever a slash of either kind stood, and no
/// other slash.
pub proof fn lemma_normalized_uses_separator(path: Seq<char>, sep: char, i: int)
    requires
        0 <= i < path.len(),
    ensures
        is_slash(path[i]) ==> normalized(path, sep)[i] == sep,
        !is_slash(path[i]) ==> normalized(path, sep)[i] == path[i],
        is_slash(normalized(path, sep)[i]) ==> normalized(path, sep)[i] == sep,
{
}

/// Normalizing keeps the parts of a path and their nesting: a directory part,
/// a slash and the rest become the normalized directory part, `sep` and the
/// normalized rest.
pub proof fn lemma_normalized_keeps_nesting(
    dir: Seq<char>,
    slash: char,
    rest: Seq<char>,
    sep: char,
)
    requires
        is_slash(slash),
    ensures
        normalized(dir.push(slash) + rest, sep) == normalized(dir, sep).push(sep) + normalized(
            rest,
            sep,
        ),
{
    assert(normalized(dir.push(slash) + rest, sep) =~= normalized(dir, sep).push(sep)
        + normalized(rest, sep));
}

/// A part of a path, which holds no slash, is its own normal form.
pub proof fn lemma_normalized_keeps_names(part: Seq<char>, sep: char)
    requires
        forall|i: int| 0 <= i < part.len() ==> !is_slash(#[trigger] part[i]),
    ensures
        normalized(part, sep) == part,
{
}

/// The characters of a string slice.
pub fn to_chars(s: &str) -> (chars: Vec<char>)
    ensures
        chars@ == s@,
{
    let mut chars: Vec<char> = Vec::new();
    let iter = s.chars();
    for c in it: iter
        invariant
            it.seq() == s@,
            chars@ == s@.take(it.index() as int),
    {
        chars.push(c);
    }
    chars
}

/// A character that stands between the parts of a path on a host whose
/// native separator is `sep`: the forward slash everywhere, and `sep`.
pub open spec fn is_separator(c: char, sep: char) -> bool {
    c == '/' || c == sep
}

/// The number of separators that a text begins with.
pub open spec fn leading_separators(s: Seq<char>, sep: char) -> nat
    decreases s.len(),
{
    if s.len() > 0 && is_separator(s[0], sep) {
        1 + leading_separators(s.skip(1), sep)
    } else {
        0
    }
}

/// `path` names the directory `root` or something below it: `root` is a
/// prefix of `path` that ends where a part of the path ends.
pub open spec fn under_root(path: Seq<char>, root: Seq<char>, sep: char) -> bool {
    &&& root.is_prefix_of(path)
    &&& root.len() == 0 || path.len() == root.len() || is_separator(root.last(), sep)
        || is_separator(path[root.len() as int], sep)
}

/// A text with every separator replaced by a forward slash, as the names in
/// an archive are written.
pub open spec fn slashed(s: Seq<char>, sep: char) -> Seq<char> {
    Seq::new(
        s.len(),
        |i: int|
            if is_separator(s[i], sep) {
                '/'
            } else {
                s[i]
            },
    )
}

/// The name of `path` relative to `root`, with forward slashes between its
/// parts; empty for `root` itself. `None` where `path` is not under `root`.
pub open spec fn relative_name(path: Seq<char>, root: Seq<char>, sep: char) -> Option<Seq<char>> {
    if under_root(path, root, sep) {
        let rest = path.skip(root.len() as int);
        Some(slashed(rest.skip(leading_separators(rest, sep) as int), sep))
    } else {
        None
    }
}

/// A text begins with exactly `k` separators when its first `k` characters
/// are separators and the next one, if there is one, is not.
proof fn lemma_leading_separators(s: Seq<char>, sep: char, k: nat)
    requires
        k <= s.len(),
        forall|j: int| 0 <= j < k ==> is_separator(#[trigger] s[j], sep),
        k == s.len() || !is_separator(s[k as int], sep),
    ensures
        leading_separators(s, sep) == k,
    decreases k,
{
    if k > 0 {
        lemma_leading_separators(s.skip(1), sep, (k - 1) as nat);
    }
}

/// The separators that a text begins with end before its end or at a
/// character that is no separator.
proof fn lemma_leading_separators_end(s: Seq<char>, sep: char)
    ensures
        leading_separators(s, sep) <= s.len(),
        leading_separators(s, sep) < s.len() ==> !is_separator(
            s[leading_separators(s, sep) as int],
            sep,
        ),
    decreases s.len(),
{
    if s.len() > 0 && is_separator(s[0], sep) {
        lemma_leading_separators_end(s.skip(1), sep);
    }
}

/// A relative name does not begin with a slash.
pub proof fn lemma_relative_name_start(path: Seq<char>, root: Seq<char>, sep: char)
    ensures
        relative_name(path, root, sep) matches Some(name) ==> name.len() == 0 || name[0] != '/',
{
    if under_root(path, root, sep) {
        let rest = path.skip(root.len() as int);
        lemma_leading_separators_end(rest, sep);
    }
}

/// Computes the name of `path` relative to `root` for an archive, where the
/// native separator of the host is `sep`.
pub fn relative_path(path: &str, root: &str, sep: char) -> (name: Option<String>)
    ensures
        match name {
            Some(text) => relative_name(path@, root@, sep) == Some(text@),
            None => relative_name(path@, root@, sep) is None,
        },
{
    let p = to_chars(path);
    let r = to_chars(root);
    if r.len() > p.len() {
        return None;
    }
    let mut i: usize = 0;
    while i < r.len()
        invariant
            i <= r.len() <= p.len(),
            p@ == path@,
            r@ == root@,
            forall|j: int| 0 <= j < i ==> p@[j] == r@[j],
        decreases r.len() - i,
    {
        if p[i] != r[i] {
            return None;
        }
        i += 1;
    }
    let n = r.len();
    let at_boundary = n == 0 || p.len() == n || r[n - 1] == '/' || r[n - 1] == sep || p[n] == '/'
        || p[n] == sep;
    if !at_boundary {
        return None;
    }
    let ghost rest = path@.skip(n as int);
    let mut k: usize = n;
    while k < p.len() && (p[k] == '/' || p[k] == sep)
        invariant
            n <= k <= p.len(),
            p@ == path@,
            rest == path@.skip(n as int),
            forall|j: int| 0 <= j < k - n ==> is_separator(#[trigger] rest[j], sep),
        decreases p.len() - k,
    {
        k += 1;
    }
    proof {
        lemma_leading_separators(rest, sep, (k - n) as nat);
    }
    let ghost tail = rest.skip((k - n) as int);
    let mut name = String::new();
    let mut m: usize = k;
    while m < p.len()
        invariant
            k <= m <= p.len(),
            p@ == path@,
            tail == path@.skip(k as int),
            name@ == slashed(tail.take(m - k), sep),
        decreases p.len() - m,
    {
        let c = p[m];
        push_char(&mut name, if c == '/' || c == sep { '/' } else { c });
        m += 1;
    }
    Some(name)
}

} // verus!
