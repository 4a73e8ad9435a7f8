//! Path policy shared by the file-system utilities around the core: the
//! sensitive-path denylist and the hidden-file test.

use vstd::prelude::*;

use crate::text::{char_lower_code, find_from, first_match, lower_code, matches_at, str_to_chars};
use vstd::seq_lib::group_to_multiset_ensures;

verus! {

/// Metadata of one file or directory, as the file-system utilities hand
/// it to the user interface.
#[derive(Clone, Debug)]
pub struct FileInfo {
    pub name: String,
    pub path: String,
    pub is_dir: bool,
    pub size: u64,
    pub modified: Option<String>,
    pub created: Option<String>,
    pub permissions: Option<String>,
}

/// The path fragments that mark a sensitive system location; a path that
/// contains one, after backslashes are normalized to slashes, is refused.
pub open spec fn sensitive_patterns() -> Seq<Seq<char>> {
    seq![
        "/etc/passwd"@,
        "/etc/shadow"@,
        "/etc/sudoers"@,
        "/etc/ssh/"@,
        "/.ssh/"@,
        "/sys/"@,
        "/proc/"@,
        "/dev/"@,
        "C:/Windows/System32"@,
        "C:/Windows/SysWOW64"@,
        "/System/Library/"@,
        "/private/var/db/"@,
    ]
}

/// `path` with every backslash replaced by a slash.
pub open spec fn normalize_seps(path: Seq<char>) -> Seq<char> {
    path.map_values(
        |c: char|
            if c == '\\' {
                '/'
            } else {
                c
            },
    )
}

/// Whether the normalized path contains a sensitive fragment.
pub open spec fn spec_is_sensitive_path(path: Seq<char>) -> bool {
    exists|k: int|
        0 <= k < sensitive_patterns().len() && first_match(
            normalize_seps(path),
            sensitive_patterns()[k],
        ).is_some()
}

/// The sensitive fragments, in list order.
fn sensitive_pattern_table() -> (v: Vec<Vec<char>>)
    ensures
        v@.len() == sensitive_patterns().len(),
        forall|k: int| 0 <= k < v@.len() ==> (#[trigger] v@[k])@ == sensitive_patterns()[k],
{
    let mut v: Vec<Vec<char>> = Vec::new();
    v.push(str_to_chars("/etc/passwd"));
    v.push(str_to_chars("/etc/shadow"));
    v.push(str_to_chars("/etc/sudoers"));
    v.push(str_to_chars("/etc/ssh/"));
    v.push(str_to_chars("/.ssh/"));
    v.push(str_to_chars("/sys/"));
    v.push(str_to_chars("/proc/"));
    v.push(str_to_chars("/dev/"));
    v.push(str_to_chars("C:/Windows/System32"));
    v.push(str_to_chars("C:/Windows/SysWOW64"));
    v.push(str_to_chars("/System/Library/"));
    v.push(str_to_chars("/private/var/db/"));
    v
}

/// Checks whether `path` touches a sensitive system location: backslashes
/// are normalized to slashes, and any denylisted fragment anywhere in the
/// result refuses the path.
pub fn is_sensitive_path(path: &str) -> (r: bool)
    ensures
        r == spec_is_sensitive_path(path@),
{
    let chars = str_to_chars(path);
    let n = chars.len();
    let mut norm: Vec<char> = Vec::new();
    let mut i: usize = 0;
    while i < n
        invariant
            i <= n,
            n == chars@.len(),
            chars@ == path@,
            norm@.len() == i,
            forall|k: int|
                0 <= k < i ==> norm@[k] == (if path@[k] == '\\' {
                    '/'
                } else {
                    path@[k]
                }),
        decreases n - i,
    {
        let c = chars[i];
        if c == '\\' {
            norm.push('/');
        } else {
            norm.push(c);
        }
        i = i + 1;
    }
    proof {
        assert(norm@ =~= normalize_seps(path@));
        assert(norm@.skip(0) =~= norm@);
    }
    let table = sensitive_pattern_table();
    let m = table.len();
    let mut k: usize = 0;
    while k < m
        invariant
            0 <= k <= m,
            m == sensitive_patterns().len(),
            norm@ == normalize_seps(path@),
            norm@.skip(0) == norm@,
            table@.len() == sensitive_patterns().len(),
            forall|j: int| 0 <= j < table@.len() ==> (#[trigger] table@[j])@
                == sensitive_patterns()[j],
            forall|j: int|
                0 <= j < k ==> first_match(
                    normalize_seps(path@),
                    sensitive_patterns()[j],
                ).is_none(),
        decreases m - k,
    {
        if find_from(&norm, &table[k], 0).is_some() {
            return true;
        }
        k = k + 1;
    }
    false
}

/// The text after the last slash of `path`: the file name the hidden-file
/// test looks at.
pub open spec fn after_last_slash(path: Seq<char>) -> Seq<char>
    decreases path.len(),
{
    if path.len() == 0 {
        Seq::empty()
    } else if path.last() == '/' {
        Seq::empty()
    } else {
        after_last_slash(path.drop_last()).push(path.last())
    }
}

/// A cut just after the last slash pins `after_last_slash` to the suffix.
proof fn lemma_after_last_slash(path: Seq<char>, i: int)
    requires
        0 <= i <= path.len(),
        forall|k: int| i <= k < path.len() ==> path[k] != '/',
        i > 0 ==> path[i - 1] == '/',
    ensures
        after_last_slash(path) == path.skip(i),
    decreases path.len(),
{
    if path.len() == 0 {
        assert(path.skip(0) =~= Seq::<char>::empty());
    } else if path.last() == '/' {
        assert(i == path.len());
        assert(path.skip(i) =~= Seq::<char>::empty());
    } else {
        assert(i < path.len());
        lemma_after_last_slash(path.drop_last(), i);
        assert(path.drop_last().skip(i).push(path.last()) =~= path.skip(i));
    }
}

/// Whether the file name of `path`, the text after its last slash, starts
/// with a dot.
pub open spec fn spec_is_hidden_path(path: Seq<char>) -> bool {
    after_last_slash(path).len() > 0 && after_last_slash(path)[0] == '.'
}

/// Checks whether `path` names a hidden file or directory.
pub fn is_hidden_path(path: &str) -> (r: bool)
    ensures
        r == spec_is_hidden_path(path@),
{
    let chars = str_to_chars(path);
    let n = chars.len();
    let mut i: usize = n;
    while i > 0 && chars[i - 1] != '/'
        invariant
            0 <= i <= n,
            n == chars@.len(),
            chars@ == path@,
            forall|k: int| i <= k < n ==> path@[k] != '/',
        decreases i,
    {
        i = i - 1;
    }
    proof {
        lemma_after_last_slash(path@, i as int);
    }
    i < n && chars[i] == '.'
}

/// Whether a project listing skips this directory entry: hidden names and
/// the build and dependency directories.
pub open spec fn spec_is_project_entry_skipped(name: Seq<char>) -> bool {
    ||| matches_at(name, "."@, 0)
    ||| name == "node_modules"@
    ||| name == "target"@
    ||| name == "dist"@
}

/// Runtime test for `spec_is_project_entry_skipped`.
pub fn is_project_entry_skipped(name: &str) -> (r: bool)
    ensures
        r == spec_is_project_entry_skipped(name@),
{
    let chars = str_to_chars(name);
    let dot = str_to_chars(".");
    if crate::text::starts_with_exact(&chars, &dot) {
        return true;
    }
    let nm = str_to_chars("node_modules");
    let tg = str_to_chars("target");
    let ds = str_to_chars("dist");
    let eq_nm = chars.len() == nm.len() && crate::text::starts_with_exact(&chars, &nm);
    let eq_tg = chars.len() == tg.len() && crate::text::starts_with_exact(&chars, &tg);
    let eq_ds = chars.len() == ds.len() && crate::text::starts_with_exact(&chars, &ds);
    proof {
        if eq_nm {
            assert(name@ =~= "node_modules"@);
        }
        if eq_tg {
            assert(name@ =~= "target"@);
        }
        if eq_ds {
            assert(name@ =~= "dist"@);
        }
        if name@ == "node_modules"@ && !eq_nm {
            assert(matches_at(name@, "node_modules"@, 0));
        }
        if name@ == "target"@ && !eq_tg {
            assert(matches_at(name@, "target"@, 0));
        }
        if name@ == "dist"@ && !eq_ds {
            assert(matches_at(name@, "dist"@, 0));
        }
    }
    eq_nm || eq_tg || eq_ds
}

/// Lexicographic order of two names with ASCII case folded, by code
/// point; a strict prefix comes first.
pub open spec fn lex_lowered_le(a: Seq<char>, b: Seq<char>) -> bool
    decreases a.len(),
{
    if a.len() == 0 {
        true
    } else if b.len() == 0 {
        false
    } else if lower_code(a[0]) < lower_code(b[0]) {
        true
    } else if lower_code(a[0]) > lower_code(b[0]) {
        false
    } else {
        lex_lowered_le(a.drop_first(), b.drop_first())
    }
}

/// The listing order of two entries: directories before files, names
/// compared case-insensitively within each group.
pub open spec fn spec_file_le(a: FileInfo, b: FileInfo) -> bool {
    if a.is_dir && !b.is_dir {
        true
    } else if !a.is_dir && b.is_dir {
        false
    } else {
        lex_lowered_le(a.name@, b.name@)
    }
}

/// The name order is total.
proof fn lemma_lex_lowered_total(a: Seq<char>, b: Seq<char>)
    ensures
        lex_lowered_le(a, b) || lex_lowered_le(b, a),
    decreases a.len(),
{
    if a.len() > 0 && b.len() > 0 && lower_code(a[0]) == lower_code(b[0]) {
        lemma_lex_lowered_total(a.drop_first(), b.drop_first());
    }
}

/// The name order is transitive.
proof fn lemma_lex_lowered_trans(a: Seq<char>, b: Seq<char>, c: Seq<char>)
    requires
        lex_lowered_le(a, b),
        lex_lowered_le(b, c),
    ensures
        lex_lowered_le(a, c),
    decreases a.len(),
{
    if a.len() > 0 && b.len() > 0 && c.len() > 0 && lower_code(a[0]) == lower_code(b[0])
        && lower_code(b[0]) == lower_code(c[0]) {
        lemma_lex_lowered_trans(a.drop_first(), b.drop_first(), c.drop_first());
    }
}

/// The listing order is total.
proof fn lemma_file_le_total(a: FileInfo, b: FileInfo)
    ensures
        spec_file_le(a, b) || spec_file_le(b, a),
{
    lemma_lex_lowered_total(a.name@, b.name@);
}

/// The listing order is transitive.
proof fn lemma_file_le_trans(a: FileInfo, b: FileInfo, c: FileInfo)
    requires
        spec_file_le(a, b),
        spec_file_le(b, c),
    ensures
        spec_file_le(a, c),
{
    if a.is_dir == b.is_dir && b.is_dir == c.is_dir {
        lemma_lex_lowered_trans(a.name@, b.name@, c.name@);
    }
}

/// Names whose first `i` folded characters agree compare as their rests
/// do.
proof fn lemma_lex_lowered_skip(a: Seq<char>, b: Seq<char>, i: int)
    requires
        0 <= i <= a.len(),
        i <= b.len(),
        forall|k: int| 0 <= k < i ==> lower_code(a[k]) == lower_code(b[k]),
    ensures
        lex_lowered_le(a, b) == lex_lowered_le(a.skip(i), b.skip(i)),
    decreases i,
{
    if i == 0 {
        assert(a.skip(0) =~= a);
        assert(b.skip(0) =~= b);
    } else {
        assert(lower_code(a[0]) == lower_code(b[0]));
        assert forall|k: int| 0 <= k < i - 1 implies lower_code(a.drop_first()[k]) == lower_code(
            b.drop_first()[k],
        ) by {
            assert(a.drop_first()[k] == a[k + 1] && b.drop_first()[k] == b[k + 1]);
        }
        lemma_lex_lowered_skip(a.drop_first(), b.drop_first(), i - 1);
        assert(a.drop_first().skip(i - 1) =~= a.skip(i));
        assert(b.drop_first().skip(i - 1) =~= b.skip(i));
    }
}

/// Compares two entries in listing order.
pub fn file_le(a: &FileInfo, b: &FileInfo) -> (r: bool)
    ensures
        r == spec_file_le(*a, *b),
{
    if a.is_dir && !b.is_dir {
        return true;
    }
    if !a.is_dir && b.is_dir {
        return false;
    }
    let an = str_to_chars(a.name.as_str());
    let bn = str_to_chars(b.name.as_str());
    let alen = an.len();
    let blen = bn.len();
    let mut i: usize = 0;
    while i < alen && i < blen && char_lower_code(an[i]) == char_lower_code(bn[i])
        invariant
            i <= alen,
            i <= blen,
            alen == an@.len(),
            blen == bn@.len(),
            an@ == a.name@,
            bn@ == b.name@,
            forall|k: int| 0 <= k < i ==> lower_code(a.name@[k]) == lower_code(b.name@[k]),
        decreases alen - i,
    {
        i = i + 1;
    }
    proof {
        lemma_lex_lowered_skip(a.name@, b.name@, i as int);
    }
    if i == alen {
        proof {
            assert(a.name@.skip(i as int).len() == 0);
        }
        true
    } else if i == blen {
        proof {
            assert(b.name@.skip(i as int).len() == 0);
            assert(a.name@.skip(i as int).len() > 0);
        }
        false
    } else {
        proof {
            assert(a.name@.skip(i as int)[0] == a.name@[i as int]);
            assert(b.name@.skip(i as int)[0] == b.name@[i as int]);
        }
        char_lower_code(an[i]) < char_lower_code(bn[i])
    }
}

/// Moving one element keeps the listing's contents.
proof fn lemma_move_keeps_multiset(s: Seq<FileInfo>, i: int, j: int)
    requires
        0 <= i < s.len(),
        0 <= j <= s.len() - 1,
    ensures
        s.remove(i).insert(j, s[i]).to_multiset() =~= s.to_multiset(),
{
    broadcast use group_to_multiset_ensures;

    assert(s.remove(i).insert(j, s[i]).to_multiset() =~= s.remove(i).to_multiset().insert(s[i]));
    assert(s.remove(i).to_multiset() =~= s.to_multiset().remove(s[i]));
    assert(s.contains(s[i]));
    assert(s.to_multiset().count(s[i]) > 0);
    assert(s.to_multiset().remove(s[i]).insert(s[i]) =~= s.to_multiset());
}

/// Sorts a listing in place: directories first, then names compared
/// case-insensitively; the sorted listing holds exactly the entries it
/// was handed.
pub fn sort_file_infos(files: &mut Vec<FileInfo>)
    ensures
        final(files)@.to_multiset() == old(files)@.to_multiset(),
        forall|x: int, y: int|
            0 <= x < y < final(files)@.len() ==> spec_file_le(
                #[trigger] final(files)@[x],
                #[trigger] final(files)@[y],
            ),
{
    let n = files.len();
    if n <= 1 {
        return;
    }
    let mut i: usize = 1;
    while i < n
        invariant
            1 <= i <= n,
            n == files@.len(),
            files@.to_multiset() == old(files)@.to_multiset(),
            forall|x: int, y: int|
                0 <= x < y < i ==> spec_file_le(#[trigger] files@[x], #[trigger] files@[y]),
        decreases n - i,
    {
        let mut j: usize = 0;
        while j < i && file_le(&files[j], &files[i])
            invariant
                j <= i < n,
                n == files@.len(),
                forall|k: int| 0 <= k < j ==> spec_file_le(#[trigger] files@[k], files@[i as int]),
            decreases i - j,
        {
            j = j + 1;
        }
        if j < i {
            let ghost pre = files@;
            proof {
                lemma_file_le_total(pre[j as int], pre[i as int]);
                assert(spec_file_le(pre[i as int], pre[j as int]));
            }
            let moved = files.remove(i);
            files.insert(j, moved);
            proof {
                assert(files@ =~= pre.remove(i as int).insert(j as int, pre[i as int]));
                lemma_move_keeps_multiset(pre, i as int, j as int);
                assert(files@.to_multiset() =~= pre.to_multiset());
                let q = files@;
                assert forall|x: int, y: int|
                    0 <= x < y < i + 1 implies spec_file_le(#[trigger] q[x], #[trigger] q[y]) by {
                    let xo: int = if x < j {
                        x
                    } else {
                        x - 1
                    };
                    let yo: int = if y < j {
                        y
                    } else {
                        y - 1
                    };
                    if x < j && y < j {
                        assert(q[x] == pre[x] && q[y] == pre[y]);
                    } else if x < j && y == j {
                        assert(q[x] == pre[x] && q[y] == pre[i as int]);
                    } else if x < j {
                        assert(q[x] == pre[x] && q[y] == pre[y - 1]);
                    } else if x == j {
                        assert(q[x] == pre[i as int] && q[y] == pre[y - 1]);
                        assert(spec_file_le(pre[i as int], pre[j as int]));
                        if y - 1 > j {
                            assert(spec_file_le(pre[j as int], pre[y - 1]));
                            lemma_file_le_trans(pre[i as int], pre[j as int], pre[y - 1]);
                        }
                    } else {
                        assert(q[x] == pre[x - 1] && q[y] == pre[y - 1]);
                    }
                }
            }
        } else {
            proof {
                assert forall|x: int, y: int|
                    0 <= x < y < i + 1 implies spec_file_le(
                    #[trigger] files@[x],
                    #[trigger] files@[y],
                ) by {
                    if y == i {
                        assert(spec_file_le(files@[x], files@[i as int]));
                    }
                }
            }
        }
        i = i + 1;
    }
}

} // verus!
