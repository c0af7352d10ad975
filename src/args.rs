//! Lookup of `key=value` words among a program's arguments.
use vstd::prelude::*;

verus! {

/// `s` begins with `p`.
pub open spec fn has_prefix(s: Seq<char>, p: Seq<char>) -> bool {
    p.len() <= s.len() && s.subrange(0, p.len() as int) == p
}

/// The first index at or after `from` where `s` holds `c`, or `s.len()`.
pub open spec fn find_from(s: Seq<char>, c: char, from: int) -> int
    decreases s.len() - from,
{
    if from < 0 || from >= s.len() {
        s.len() as int
    } else if s[from] == c {
        from
    } else {
        find_from(s, c, from + 1)
    }
}

/// The text between the first `=` of `s` and the next `=` (or the end);
/// nothing when `s` holds no `=`.
pub open spec fn value_field(s: Seq<char>) -> Option<Seq<char>> {
    let i = find_from(s, '=', 0);
    if i >= s.len() {
        None
    } else {
        Some(s.subrange(i + 1, find_from(s, '=', i + 1)))
    }
}

/// The first index at or after `from` of an argument that begins with `p`,
/// or `args.len()`.
pub open spec fn first_with_prefix(args: Seq<Seq<char>>, p: Seq<char>, from: int) -> int
    decreases args.len() - from,
{
    if from < 0 || from >= args.len() {
        args.len() as int
    } else if has_prefix(args[from], p) {
        from
    } else {
        first_with_prefix(args, p, from + 1)
    }
}

/// The value given to the first argument that begins with `name`.
pub open spec fn param_of(args: Seq<Seq<char>>, name: Seq<char>) -> Option<Seq<char>> {
    let k = first_with_prefix(args, name, 0);
    if k >= args.len() {
        None
    } else {
        value_field(args[k])
    }
}

/// The text views of a list of strings.
pub open spec fn texts(args: Seq<String>) -> Seq<Seq<char>> {
    args.map_values(|a: String| a@)
}

/// The search from `from` ends between `from` and the end of `s`.
proof fn lemma_find_from_bounds(s: Seq<char>, c: char, from: int)
    requires
        0 <= from <= s.len(),
    ensures
        from <= find_from(s, c, from) <= s.len(),
    decreases s.len() - from,
{
    if from < s.len() && s[from] != c {
        lemma_find_from_bounds(s, c, from + 1);
    }
}

/// Whether `s` begins with `p`.
pub fn starts_with(s: &str, p: &str) -> (r: bool)
    ensures
        r == has_prefix(s@, p@),
{
    let n = s.unicode_len();
    let m = p.unicode_len();
    if m > n {
        return false;
    }
    let mut i: usize = 0;
    while i < m
        invariant
            m <= n,
            n == s@.len(),
            m == p@.len(),
            i <= m,
            forall|k: int| 0 <= k < i ==> s@[k] == p@[k],
        decreases m - i,
    {
        if s.get_char(i) != p.get_char(i) {
            assert(s@.subrange(0, m as int)[i as int] != p@[i as int]);
            return false;
        }
        i = i + 1;
    }
    assert(s@.subrange(0, m as int) =~= p@);
    true
}

/// The first index at or after `from` where `s` holds `c`, or the length of `s`.
fn find_char(s: &str, c: char, from: usize) -> (r: usize)
    requires
        from <= s@.len(),
    ensures
        r == find_from(s@, c, from as int),
{
    let n = s.unicode_len();
    let mut i: usize = from;
    while i < n
        invariant
            from <= i <= n,
            n == s@.len(),
            find_from(s@, c, from as int) == find_from(s@, c, i as int),
        decreases n - i,
    {
        if s.get_char(i) == c {
            return i;
        }
        i = i + 1;
    }
    i
}

/// The text between the first `=` of `arg` and the next `=` (or the end),
/// or `None` when `arg` holds no `=`.
pub fn value_of(arg: &str) -> (v: Option<String>)
    ensures
        v is None <==> value_field(arg@) is None,
        v matches Some(t) ==> value_field(arg@) == Some(t@),
{
    let n = arg.unicode_len();
    let i = find_char(arg, '=', 0);
    proof {
        lemma_find_from_bounds(arg@, '=', 0);
    }
    if i >= n {
        return None;
    }
    let j = find_char(arg, '=', i + 1);
    proof {
        lemma_find_from_bounds(arg@, '=', i + 1);
    }
    let t = arg.substring_char(i + 1, j);
    Some(String::from_str(t))
}

/// The value given to the first argument that begins with `name`: the text
/// after its first `=`, up to the next `=`. `None` when no argument begins
/// with `name`, or when the first that does holds no `=`.
pub fn param_value(args: &Vec<String>, name: &str) -> (v: Option<String>)
    ensures
        v is None <==> param_of(texts(args@), name@) is None,
        v matches Some(t) ==> param_of(texts(args@), name@) == Some(t@),
{
    let ghost a = texts(args@);
    let mut i: usize = 0;
    while i < args.len()
        invariant
            i <= args@.len(),
            a == texts(args@),
            a.len() == args@.len(),
            first_with_prefix(a, name@, 0) == first_with_prefix(a, name@, i as int),
        decreases args@.len() - i,
    {
        assert(a[i as int] == args@[i as int]@);
        if starts_with(args[i].as_str(), name) {
            return value_of(args[i].as_str());
        }
        i = i + 1;
    }
    None
}

/// Whether one of the arguments is exactly `word`.
pub fn has_word(args: &Vec<String>, word: &str) -> (r: bool)
    ensures
        r == exists|k: int| 0 <= k < args@.len() && (#[trigger] args@[k])@ == word@,
{
    let mut i: usize = 0;
    while i < args.len()
        invariant
            i <= args@.len(),
            forall|k: int| 0 <= k < i ==> (#[trigger] args@[k])@ != word@,
        decreases args@.len() - i,
    {
        let a = args[i].as_str();
        if a.unicode_len() == word.unicode_len() && starts_with(a, word) {
            assert(a@ =~= a@.subrange(0, word@.len() as int));
            return true;
        }
        assert(a@ =~= a@.subrange(0, a@.len() as int));
        i = i + 1;
    }
    false
}

} // verus!
