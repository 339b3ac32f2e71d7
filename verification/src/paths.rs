//! Plain-string path helpers: base names, parent folders, prefix tests,
//! lexicographic ordering, and the fixed naming rules of the scanner.

use vstd::prelude::*;

verus! {

/// Holds when `name` selects a file of interest: exactly `.env`, or
/// `.env.` followed by any non-empty suffix.
pub open spec fn spec_is_env_name(name: Seq<char>) -> bool {
    ||| name =~= ".env"@
    ||| {
        &&& name.len() >= 6
        &&& name.subrange(0, 5) =~= ".env."@
    }
}

/// Decides whether a file base name matches the `.env` naming convention.
pub fn is_env_file_name(name: &str) -> (r: bool)
    ensures
        r == spec_is_env_name(name@),
{
    proof {
        reveal_strlit(".env");
        reveal_strlit(".env.");
    }
    let n = name.unicode_len();
    if n == 4 {
        let r = name.get_char(0) == '.' && name.get_char(1) == 'e' && name.get_char(2) == 'n'
            && name.get_char(3) == 'v';
        proof {
            if r {
                assert(name@ =~= ".env"@);
            }
        }
        r
    } else if n >= 6 {
        let head = name.get_char(0) == '.' && name.get_char(1) == 'e' && name.get_char(2) == 'n'
            && name.get_char(3) == 'v' && name.get_char(4) == '.';
        proof {
            assert forall|k: int| 0 <= k < 5 implies name@.subrange(0, 5)[k] == name@[k] by {}
            if head {
                assert(name@.subrange(0, 5) =~= ".env."@);
            } else {
                assert(!(name@.subrange(0, 5) =~= ".env."@));
            }
        }
        head
    } else {
        false
    }
}

/// Holds when `name` is one of the directory names that a scan never descends
/// into.
pub open spec fn spec_is_ignored_name(name: Seq<char>) -> bool {
    ||| name =~= "node_modules"@
    ||| name =~= ".git"@
    ||| name =~= "dist"@
    ||| name =~= "build"@
    ||| name =~= ".next"@
    ||| name =~= "target"@
    ||| name =~= ".turbo"@
    ||| name =~= ".cache"@
}

/// Character-for-character equality of two string slices.
pub fn str_eq(a: &str, b: &str) -> (r: bool)
    ensures
        r == (a@ =~= b@),
{
    let na = a.unicode_len();
    let nb = b.unicode_len();
    if na != nb {
        return false;
    }
    let mut i: usize = 0;
    while i < na
        invariant
            0 <= i <= na,
            na == a@.len(),
            na == b@.len(),
            forall|j: int| 0 <= j < i ==> a@[j] == b@[j],
        decreases na - i,
    {
        if a.get_char(i) != b.get_char(i) {
            proof {
                assert(a@[i as int] != b@[i as int]);
            }
            return false;
        }
        i = i + 1;
    }
    proof {
        assert(a@ =~= b@);
    }
    true
}

/// Decides whether `name` is a directory name that scans prune.
pub fn is_ignored_dir(name: &str) -> (r: bool)
    ensures
        r == spec_is_ignored_name(name@),
{
    str_eq(name, "node_modules") || str_eq(name, ".git") || str_eq(name, "dist") || str_eq(
        name,
        "build",
    ) || str_eq(name, ".next") || str_eq(name, "target") || str_eq(name, ".turbo") || str_eq(
        name,
        ".cache",
    )
}

/// Holds when `p` is a prefix of `s`.
pub open spec fn spec_starts_with(s: Seq<char>, p: Seq<char>) -> bool {
    s.len() >= p.len() && s.subrange(0, p.len() as int) =~= p
}

/// Decides whether `p` is a prefix of `s`.
pub fn str_starts_with(s: &str, p: &str) -> (r: bool)
    ensures
        r == spec_starts_with(s@, p@),
{
    let ns = s.unicode_len();
    let np = p.unicode_len();
    if ns < np {
        return false;
    }
    let mut i: usize = 0;
    while i < np
        invariant
            0 <= i <= np,
            ns == s@.len(),
            np == p@.len(),
            ns >= np,
            forall|j: int| 0 <= j < i ==> s@[j] == p@[j],
        decreases np - i,
    {
        if s.get_char(i) != p.get_char(i) {
            proof {
                assert(s@[i as int] != p@[i as int]);
                assert(s@.subrange(0, p@.len() as int)[i as int] == s@[i as int]);
            }
            return false;
        }
        i = i + 1;
    }
    proof {
        assert(s@.subrange(0, p@.len() as int) =~= p@);
    }
    true
}

/// Holds when path `p` equals `root` or lies beneath it at a component
/// boundary (so `/ab` is not under `/a`, while `/a/b` is).
pub open spec fn spec_path_under(p: Seq<char>, root: Seq<char>) -> bool {
    ||| p =~= root
    ||| {
        &&& spec_starts_with(p, root)
        &&& p.len() > root.len()
        &&& {
            ||| (root.len() > 0 && root[root.len() - 1] == '/')
            ||| p[root.len() as int] == '/'
        }
    }
}

/// Decides whether `p` lies at or beneath `root`.
pub fn path_under(p: &str, root: &str) -> (r: bool)
    ensures
        r == spec_path_under(p@, root@),
{
    if str_eq(p, root) {
        return true;
    }
    if !str_starts_with(p, root) {
        return false;
    }
    let np = p.unicode_len();
    let nr = root.unicode_len();
    if np <= nr {
        proof {
            assert(p@ =~= p@.subrange(0, root@.len() as int));
        }
        return false;
    }
    (nr > 0 && root.get_char(nr - 1) == '/') || p.get_char(nr) == '/'
}

/// Lexicographic order on character sequences, by Unicode scalar value.
pub open spec fn lex_le(a: Seq<char>, b: Seq<char>) -> bool
    decreases a.len(),
{
    if a.len() == 0 {
        true
    } else if b.len() == 0 {
        false
    } else if a[0] == b[0] {
        lex_le(a.drop_first(), b.drop_first())
    } else {
        (a[0] as u32) < (b[0] as u32)
    }
}

/// The order is total: of any two sequences, one is below the other.
pub proof fn lemma_lex_total(a: Seq<char>, b: Seq<char>)
    ensures
        lex_le(a, b) || lex_le(b, a),
    decreases a.len(),
{
    if a.len() != 0 && b.len() != 0 {
        if a[0] == b[0] {
            lemma_lex_total(a.drop_first(), b.drop_first());
        } else {
            vstd::utf8::char_u32_cast(a[0], a[0] as u32);
            vstd::utf8::char_u32_cast(b[0], b[0] as u32);
        }
    }
}

/// The order is antisymmetric: mutual order means equality.
pub proof fn lemma_lex_antisym(a: Seq<char>, b: Seq<char>)
    requires
        lex_le(a, b),
        lex_le(b, a),
    ensures
        a =~= b,
    decreases a.len(),
{
    if a.len() != 0 && b.len() != 0 && a[0] == b[0] {
        lemma_lex_antisym(a.drop_first(), b.drop_first());
        assert(a =~= seq![a[0]] + a.drop_first());
        assert(b =~= seq![b[0]] + b.drop_first());
    }
}

/// The order is transitive.
pub proof fn lemma_lex_trans(a: Seq<char>, b: Seq<char>, c: Seq<char>)
    requires
        lex_le(a, b),
        lex_le(b, c),
    ensures
        lex_le(a, c),
    decreases a.len(),
{
    if a.len() != 0 && b.len() != 0 && c.len() != 0 && a[0] == b[0] && b[0] == c[0] {
        lemma_lex_trans(a.drop_first(), b.drop_first(), c.drop_first());
    }
}

/// Decides the lexicographic order on string slices.
pub fn str_le(a: &str, b: &str) -> (r: bool)
    ensures
        r == lex_le(a@, b@),
    decreases a@.len(),
{
    let na = a.unicode_len();
    let nb = b.unicode_len();
    if na == 0 {
        true
    } else if nb == 0 {
        false
    } else {
        let ca = a.get_char(0);
        let cb = b.get_char(0);
        if ca == cb {
            let ra = a.substring_char(1, na);
            let rb = b.substring_char(1, nb);
            proof {
                assert(ra@ =~= a@.drop_first());
                assert(rb@ =~= b@.drop_first());
            }
            str_le(ra, rb)
        } else {
            (ca as u32) < (cb as u32)
        }
    }
}

/// The index just past the last `/` in `s[..i]`, or `0` if there is none.
pub open spec fn spec_after_last_slash(s: Seq<char>, i: int) -> int
    decreases i,
{
    if i <= 0 {
        0
    } else if s[i - 1] == '/' {
        i
    } else {
        spec_after_last_slash(s, i - 1)
    }
}

/// The base name of a path: everything after the last `/`, or the whole
/// path if it has no `/`.
pub open spec fn spec_base_name(s: Seq<char>) -> Seq<char> {
    s.subrange(spec_after_last_slash(s, s.len() as int), s.len() as int)
}

/// The containing folder of a path: everything before the last `/`; a bare
/// `/` when the last slash is leading; the path itself when it has no `/`.
pub open spec fn spec_folder_of(s: Seq<char>) -> Seq<char> {
    let k = spec_after_last_slash(s, s.len() as int);
    if k == 0 {
        s
    } else if k == 1 {
        s.subrange(0, 1)
    } else {
        s.subrange(0, k - 1)
    }
}

proof fn lemma_after_last_slash_bounds(s: Seq<char>, i: int)
    requires
        0 <= i <= s.len(),
    ensures
        0 <= spec_after_last_slash(s, i) <= i,
    decreases i,
{
    if i > 0 && s[i - 1] != '/' {
        lemma_after_last_slash_bounds(s, i - 1);
    }
}

/// Computes the index just past the last `/` in `s`, or `0` if none.
fn after_last_slash(s: &str) -> (r: usize)
    ensures
        r == spec_after_last_slash(s@, s@.len() as int),
        0 <= r <= s@.len(),
{
    let n = s.unicode_len();
    let mut i: usize = n;
    while i > 0
        invariant
            0 <= i <= n,
            n == s@.len(),
            spec_after_last_slash(s@, n as int) == spec_after_last_slash(s@, i as int),
        decreases i,
    {
        if s.get_char(i - 1) == '/' {
            return i;
        }
        i = i - 1;
    }
    0
}

/// The base name of a path string.
pub fn base_name_of(s: &str) -> (r: String)
    ensures
        r@ =~= spec_base_name(s@),
{
    let n = s.unicode_len();
    let k = after_last_slash(s);
    String::from_str(s.substring_char(k, n))
}

/// The containing folder of a path string.
pub fn folder_of(s: &str) -> (r: String)
    ensures
        r@ =~= spec_folder_of(s@),
{
    let n = s.unicode_len();
    let k = after_last_slash(s);
    if k == 0 {
        String::from_str(s)
    } else if k == 1 {
        String::from_str(s.substring_char(0, 1))
    } else {
        String::from_str(s.substring_char(0, k - 1))
    }
}

/// Holds when some `/`-terminated component of `s` other than the final
/// one, scanning from `start` with position `i`, is an ignored name.
pub open spec fn spec_has_ignored_dir_from(s: Seq<char>, start: int, i: int) -> bool
    decreases s.len() - i,
{
    if i >= s.len() || i < 0 {
        false
    } else if s[i] == '/' {
        spec_is_ignored_name(s.subrange(start, i)) || spec_has_ignored_dir_from(s, i + 1, i + 1)
    } else {
        spec_has_ignored_dir_from(s, start, i + 1)
    }
}

/// Holds when any directory component of the relative path `s` (every
/// `/`-separated component except the last, which names the file itself)
/// is an ignored directory name.
pub open spec fn spec_has_ignored_dir(s: Seq<char>) -> bool {
    spec_has_ignored_dir_from(s, 0, 0)
}

/// Decides whether any directory component of the relative path `s` is an
/// ignored name.
pub fn has_ignored_dir(s: &str) -> (r: bool)
    ensures
        r == spec_has_ignored_dir(s@),
{
    let n = s.unicode_len();
    let mut start: usize = 0;
    let mut i: usize = 0;
    while i < n
        invariant
            0 <= start <= i <= n,
            n == s@.len(),
            spec_has_ignored_dir(s@) == spec_has_ignored_dir_from(s@, start as int, i as int),
        decreases n - i,
    {
        if s.get_char(i) == '/' {
            let comp = s.substring_char(start, i);
            if is_ignored_dir(comp) {
                return true;
            }
            proof {
                assert(!spec_is_ignored_name(s@.subrange(start as int, i as int)));
            }
            start = i + 1;
        }
        i = i + 1;
    }
    false
}

} // verus!
