use vstd::prelude::*;
use crate::strutil::{lex_le, lemma_lex_le_total, lemma_lex_le_trans, str_eq, str_le,
    str_starts_with, contains_string};

verus! {

/// Permission entries gathered from configuration: what to allow and what to
/// deny.
#[derive(Clone, Debug, Default)]
pub struct Permissions {
    pub allow: Vec<String>,
    pub deny: Vec<String>,
}

/// The sort group of a permission entry: the first matching prefix of the
/// grouping table decides, and entries without one fall to the last group.
pub open spec fn spec_perm_group(entry: Seq<char>) -> Seq<char> {
    if "Bash(cat"@.is_prefix_of(entry) {
        "01-bash-read"@
    } else     if "Bash(column"@.is_prefix_of(entry) {
        "01-bash-read"@
    } else     if "Bash(cut"@.is_prefix_of(entry) {
        "01-bash-read"@
    } else     if "Bash(diff"@.is_prefix_of(entry) {
        "01-bash-read"@
    } else     if "Bash(file"@.is_prefix_of(entry) {
        "01-bash-read"@
    } else     if "Bash(find"@.is_prefix_of(entry) {
        "01-bash-read"@
    } else     if "Bash(grep"@.is_prefix_of(entry) {
        "01-bash-read"@
    } else     if "Bash(head"@.is_prefix_of(entry) {
        "01-bash-read"@
    } else     if "Bash(jq"@.is_prefix_of(entry) {
        "01-bash-read"@
    } else     if "Bash(ls"@.is_prefix_of(entry) {
        "01-bash-read"@
    } else     if "Bash(md5sum"@.is_prefix_of(entry) {
        "01-bash-read"@
    } else     if "Bash(readlink"@.is_prefix_of(entry) {
        "01-bash-read"@
    } else     if "Bash(realpath"@.is_prefix_of(entry) {
        "01-bash-read"@
    } else     if "Bash(rg"@.is_prefix_of(entry) {
        "01-bash-read"@
    } else     if "Bash(sha256sum"@.is_prefix_of(entry) {
        "01-bash-read"@
    } else     if "Bash(sort"@.is_prefix_of(entry) {
        "01-bash-read"@
    } else     if "Bash(stat"@.is_prefix_of(entry) {
        "01-bash-read"@
    } else     if "Bash(tail"@.is_prefix_of(entry) {
        "01-bash-read"@
    } else     if "Bash(tar"@.is_prefix_of(entry) {
        "01-bash-read"@
    } else     if "Bash(test"@.is_prefix_of(entry) {
        "01-bash-read"@
    } else     if "Bash(tr"@.is_prefix_of(entry) {
        "01-bash-read"@
    } else     if "Bash(tree"@.is_prefix_of(entry) {
        "01-bash-read"@
    } else     if "Bash(uniq"@.is_prefix_of(entry) {
        "01-bash-read"@
    } else     if "Bash(unzip"@.is_prefix_of(entry) {
        "01-bash-read"@
    } else     if "Bash(wc"@.is_prefix_of(entry) {
        "01-bash-read"@
    } else     if "Bash(which"@.is_prefix_of(entry) {
        "01-bash-read"@
    } else     if "Bash(zip"@.is_prefix_of(entry) {
        "01-bash-read"@
    } else     if "Bash(date"@.is_prefix_of(entry) {
        "02-system"@
    } else     if "Bash(df"@.is_prefix_of(entry) {
        "02-system"@
    } else     if "Bash(du"@.is_prefix_of(entry) {
        "02-system"@
    } else     if "Bash(hostname"@.is_prefix_of(entry) {
        "02-system"@
    } else     if "Bash(id"@.is_prefix_of(entry) {
        "02-system"@
    } else     if "Bash(lsof"@.is_prefix_of(entry) {
        "02-system"@
    } else     if "Bash(netstat"@.is_prefix_of(entry) {
        "02-system"@
    } else     if "Bash(printenv"@.is_prefix_of(entry) {
        "02-system"@
    } else     if "Bash(ps"@.is_prefix_of(entry) {
        "02-system"@
    } else     if "Bash(pwd"@.is_prefix_of(entry) {
        "02-system"@
    } else     if "Bash(ss"@.is_prefix_of(entry) {
        "02-system"@
    } else     if "Bash(top"@.is_prefix_of(entry) {
        "02-system"@
    } else     if "Bash(uname"@.is_prefix_of(entry) {
        "02-system"@
    } else     if "Bash(uptime"@.is_prefix_of(entry) {
        "02-system"@
    } else     if "Bash(whoami"@.is_prefix_of(entry) {
        "02-system"@
    } else     if "Bash(git "@.is_prefix_of(entry) {
        "03-git"@
    } else     if "Bash(docker"@.is_prefix_of(entry) {
        "04-docker"@
    } else     if "Bash(gh "@.is_prefix_of(entry) {
        "05-github"@
    } else     if "Bash(python"@.is_prefix_of(entry) {
        "06-python"@
    } else     if "Bash(python3"@.is_prefix_of(entry) {
        "06-python"@
    } else     if "Bash(pip"@.is_prefix_of(entry) {
        "06-python"@
    } else     if "Bash(pip3"@.is_prefix_of(entry) {
        "06-python"@
    } else     if "Bash(uv "@.is_prefix_of(entry) {
        "06-python"@
    } else     if "Bash(poetry"@.is_prefix_of(entry) {
        "06-python"@
    } else     if "Bash(pyenv"@.is_prefix_of(entry) {
        "06-python"@
    } else     if "Bash(pipenv"@.is_prefix_of(entry) {
        "06-python"@
    } else     if "Bash(node"@.is_prefix_of(entry) {
        "07-node"@
    } else     if "Bash(npm"@.is_prefix_of(entry) {
        "07-node"@
    } else     if "Bash(npx"@.is_prefix_of(entry) {
        "07-node"@
    } else     if "Bash(yarn"@.is_prefix_of(entry) {
        "07-node"@
    } else     if "Bash(pnpm"@.is_prefix_of(entry) {
        "07-node"@
    } else     if "Bash(nvm"@.is_prefix_of(entry) {
        "07-node"@
    } else     if "Bash(deno"@.is_prefix_of(entry) {
        "07-node"@
    } else     if "Bash(java"@.is_prefix_of(entry) {
        "08-jvm"@
    } else     if "Bash(javac"@.is_prefix_of(entry) {
        "08-jvm"@
    } else     if "Bash(javap"@.is_prefix_of(entry) {
        "08-jvm"@
    } else     if "Bash(jar "@.is_prefix_of(entry) {
        "08-jvm"@
    } else     if "Bash(gradle"@.is_prefix_of(entry) {
        "08-jvm"@
    } else     if "Bash(./gradlew"@.is_prefix_of(entry) {
        "08-jvm"@
    } else     if "Bash(mvn"@.is_prefix_of(entry) {
        "08-jvm"@
    } else     if "Bash(kotlin"@.is_prefix_of(entry) {
        "08-jvm"@
    } else     if "Bash(rustc"@.is_prefix_of(entry) {
        "09-rust"@
    } else     if "Bash(rustup"@.is_prefix_of(entry) {
        "09-rust"@
    } else     if "Bash(cargo"@.is_prefix_of(entry) {
        "09-rust"@
    } else     if "Bash(~/tools/"@.is_prefix_of(entry) {
        "10-tools"@
    } else     if "Bash(command"@.is_prefix_of(entry) {
        "10-tools"@
    } else     if "WebFetch"@.is_prefix_of(entry) {
        "11-web"@
    } else {
        "99-other"@
    }
}

/// Sort key for permission entries: entries are grouped, and ordered by the
/// entry text within a group.
pub fn permission_sort_key(entry: &str) -> (r: (String, String))
    ensures
        r.0@ == spec_perm_group(entry@),
        r.1@ == entry@,
{
    (perm_group(entry), entry.to_owned())
}

/// The group half of the sort key.
fn perm_group(entry: &str) -> (r: String)
    ensures
        r@ == spec_perm_group(entry@),
{
    if str_starts_with(entry, "Bash(cat") {
        "01-bash-read".to_owned()
    } else     if str_starts_with(entry, "Bash(column") {
        "01-bash-read".to_owned()
    } else     if str_starts_with(entry, "Bash(cut") {
        "01-bash-read".to_owned()
    } else     if str_starts_with(entry, "Bash(diff") {
        "01-bash-read".to_owned()
    } else     if str_starts_with(entry, "Bash(file") {
        "01-bash-read".to_owned()
    } else     if str_starts_with(entry, "Bash(find") {
        "01-bash-read".to_owned()
    } else     if str_starts_with(entry, "Bash(grep") {
        "01-bash-read".to_owned()
    } else     if str_starts_with(entry, "Bash(head") {
        "01-bash-read".to_owned()
    } else     if str_starts_with(entry, "Bash(jq") {
        "01-bash-read".to_owned()
    } else     if str_starts_with(entry, "Bash(ls") {
        "01-bash-read".to_owned()
    } else     if str_starts_with(entry, "Bash(md5sum") {
        "01-bash-read".to_owned()
    } else     if str_starts_with(entry, "Bash(readlink") {
        "01-bash-read".to_owned()
    } else     if str_starts_with(entry, "Bash(realpath") {
        "01-bash-read".to_owned()
    } else     if str_starts_with(entry, "Bash(rg") {
        "01-bash-read".to_owned()
    } else     if str_starts_with(entry, "Bash(sha256sum") {
        "01-bash-read".to_owned()
    } else     if str_starts_with(entry, "Bash(sort") {
        "01-bash-read".to_owned()
    } else     if str_starts_with(entry, "Bash(stat") {
        "01-bash-read".to_owned()
    } else     if str_starts_with(entry, "Bash(tail") {
        "01-bash-read".to_owned()
    } else     if str_starts_with(entry, "Bash(tar") {
        "01-bash-read".to_owned()
    } else     if str_starts_with(entry, "Bash(test") {
        "01-bash-read".to_owned()
    } else     if str_starts_with(entry, "Bash(tr") {
        "01-bash-read".to_owned()
    } else     if str_starts_with(entry, "Bash(tree") {
        "01-bash-read".to_owned()
    } else     if str_starts_with(entry, "Bash(uniq") {
        "01-bash-read".to_owned()
    } else     if str_starts_with(entry, "Bash(unzip") {
        "01-bash-read".to_owned()
    } else     if str_starts_with(entry, "Bash(wc") {
        "01-bash-read".to_owned()
    } else     if str_starts_with(entry, "Bash(which") {
        "01-bash-read".to_owned()
    } else     if str_starts_with(entry, "Bash(zip") {
        "01-bash-read".to_owned()
    } else     if str_starts_with(entry, "Bash(date") {
        "02-system".to_owned()
    } else     if str_starts_with(entry, "Bash(df") {
        "02-system".to_owned()
    } else     if str_starts_with(entry, "Bash(du") {
        "02-system".to_owned()
    } else     if str_starts_with(entry, "Bash(hostname") {
        "02-system".to_owned()
    } else     if str_starts_with(entry, "Bash(id") {
        "02-system".to_owned()
    } else     if str_starts_with(entry, "Bash(lsof") {
        "02-system".to_owned()
    } else     if str_starts_with(entry, "Bash(netstat") {
        "02-system".to_owned()
    } else     if str_starts_with(entry, "Bash(printenv") {
        "02-system".to_owned()
    } else     if str_starts_with(entry, "Bash(ps") {
        "02-system".to_owned()
    } else     if str_starts_with(entry, "Bash(pwd") {
        "02-system".to_owned()
    } else     if str_starts_with(entry, "Bash(ss") {
        "02-system".to_owned()
    } else     if str_starts_with(entry, "Bash(top") {
        "02-system".to_owned()
    } else     if str_starts_with(entry, "Bash(uname") {
        "02-system".to_owned()
    } else     if str_starts_with(entry, "Bash(uptime") {
        "02-system".to_owned()
    } else     if str_starts_with(entry, "Bash(whoami") {
        "02-system".to_owned()
    } else     if str_starts_with(entry, "Bash(git ") {
        "03-git".to_owned()
    } else     if str_starts_with(entry, "Bash(docker") {
        "04-docker".to_owned()
    } else     if str_starts_with(entry, "Bash(gh ") {
        "05-github".to_owned()
    } else     if str_starts_with(entry, "Bash(python") {
        "06-python".to_owned()
    } else     if str_starts_with(entry, "Bash(python3") {
        "06-python".to_owned()
    } else     if str_starts_with(entry, "Bash(pip") {
        "06-python".to_owned()
    } else     if str_starts_with(entry, "Bash(pip3") {
        "06-python".to_owned()
    } else     if str_starts_with(entry, "Bash(uv ") {
        "06-python".to_owned()
    } else     if str_starts_with(entry, "Bash(poetry") {
        "06-python".to_owned()
    } else     if str_starts_with(entry, "Bash(pyenv") {
        "06-python".to_owned()
    } else     if str_starts_with(entry, "Bash(pipenv") {
        "06-python".to_owned()
    } else     if str_starts_with(entry, "Bash(node") {
        "07-node".to_owned()
    } else     if str_starts_with(entry, "Bash(npm") {
        "07-node".to_owned()
    } else     if str_starts_with(entry, "Bash(npx") {
        "07-node".to_owned()
    } else     if str_starts_with(entry, "Bash(yarn") {
        "07-node".to_owned()
    } else     if str_starts_with(entry, "Bash(pnpm") {
        "07-node".to_owned()
    } else     if str_starts_with(entry, "Bash(nvm") {
        "07-node".to_owned()
    } else     if str_starts_with(entry, "Bash(deno") {
        "07-node".to_owned()
    } else     if str_starts_with(entry, "Bash(java") {
        "08-jvm".to_owned()
    } else     if str_starts_with(entry, "Bash(javac") {
        "08-jvm".to_owned()
    } else     if str_starts_with(entry, "Bash(javap") {
        "08-jvm".to_owned()
    } else     if str_starts_with(entry, "Bash(jar ") {
        "08-jvm".to_owned()
    } else     if str_starts_with(entry, "Bash(gradle") {
        "08-jvm".to_owned()
    } else     if str_starts_with(entry, "Bash(./gradlew") {
        "08-jvm".to_owned()
    } else     if str_starts_with(entry, "Bash(mvn") {
        "08-jvm".to_owned()
    } else     if str_starts_with(entry, "Bash(kotlin") {
        "08-jvm".to_owned()
    } else     if str_starts_with(entry, "Bash(rustc") {
        "09-rust".to_owned()
    } else     if str_starts_with(entry, "Bash(rustup") {
        "09-rust".to_owned()
    } else     if str_starts_with(entry, "Bash(cargo") {
        "09-rust".to_owned()
    } else     if str_starts_with(entry, "Bash(~/tools/") {
        "10-tools".to_owned()
    } else     if str_starts_with(entry, "Bash(command") {
        "10-tools".to_owned()
    } else     if str_starts_with(entry, "WebFetch") {
        "11-web".to_owned()
    } else {
        "99-other".to_owned()
    }
}

/// The order `collect_permissions` sorts by: group first, entry text within a
/// group.
pub open spec fn perm_le(a: Seq<char>, b: Seq<char>) -> bool {
    if spec_perm_group(a) == spec_perm_group(b) {
        lex_le(a, b)
    } else {
        lex_le(spec_perm_group(a), spec_perm_group(b))
    }
}

pub proof fn lemma_perm_le_total(a: Seq<char>, b: Seq<char>)
    ensures
        perm_le(a, b) || perm_le(b, a),
        perm_le(a, b) && perm_le(b, a) ==> a == b,
{
    lemma_lex_le_total(a, b);
    lemma_lex_le_total(spec_perm_group(a), spec_perm_group(b));
}

pub proof fn lemma_perm_le_trans(a: Seq<char>, b: Seq<char>, c: Seq<char>)
    requires
        perm_le(a, b),
        perm_le(b, c),
    ensures
        perm_le(a, c),
{
    let ga = spec_perm_group(a);
    let gb = spec_perm_group(b);
    let gc = spec_perm_group(c);
    lemma_lex_le_total(ga, gb);
    lemma_lex_le_total(gb, gc);
    lemma_lex_le_total(ga, gc);
    if ga == gb && gb == gc {
        lemma_lex_le_trans(a, b, c);
    } else if ga == gb {
        // ga == gb, gb < gc
    } else if gb == gc {
        // ga < gb == gc
    } else {
        lemma_lex_le_trans(ga, gb, gc);
    }
}

fn perm_le_exec(a: &str, b: &str) -> (r: bool)
    ensures
        r == perm_le(a@, b@),
{
    let ga = perm_group(a);
    let gb = perm_group(b);
    if str_eq(ga.as_str(), gb.as_str()) {
        str_le(a, b)
    } else {
        str_le(ga.as_str(), gb.as_str())
    }
}

/// Insert an entry into a strictly ascending list it is not yet in.
fn insert_sorted(out: &mut Vec<String>, entry: String)
    requires
        forall|i: int, j: int|
            0 <= i < j < old(out)@.len() ==> perm_le(
                #[trigger] old(out).deep_view()[i],
                #[trigger] old(out).deep_view()[j],
            ) && old(out).deep_view()[i] != old(out).deep_view()[j],
        !old(out).deep_view().contains(entry@),
    ensures
        forall|i: int, j: int|
            0 <= i < j < final(out)@.len() ==> perm_le(
                #[trigger] final(out).deep_view()[i],
                #[trigger] final(out).deep_view()[j],
            ) && final(out).deep_view()[i] != final(out).deep_view()[j],
        forall|x: Seq<char>|
            final(out).deep_view().contains(x) <==> (old(out).deep_view().contains(x) || x
                == entry@),
{
    let n = out.len();
    let mut idx: usize = 0;
    while idx < n && !perm_le_exec(entry.as_str(), out[idx].as_str())
        invariant
            n == out@.len(),
            *out == *old(out),
            idx <= n,
            forall|j: int| 0 <= j < idx ==> !perm_le(entry@, out.deep_view()[j]),
        decreases n - idx,
    {
        idx = idx + 1;
    }
    let ghost before = out.deep_view();
    out.insert(idx, entry);
    proof {
        assert(out.deep_view() =~= before.insert(idx as int, entry@));
        assert forall|i: int, j: int| 0 <= i < j < out.deep_view().len() implies perm_le(
            #[trigger] out.deep_view()[i],
            #[trigger] out.deep_view()[j],
        ) && out.deep_view()[i] != out.deep_view()[j] by {
            let dv = out.deep_view();
            if i == idx {
                // entry against a later element
                let b = before[j - 1];
                assert(perm_le(entry@, before[idx as int]));
                if j - 1 > idx {
                    lemma_perm_le_trans(entry@, before[idx as int], b);
                }
                if entry@ == b {
                    assert(before.contains(entry@)) by {
                        assert(before[j - 1] == entry@);
                    }
                    assert(false);
                }
            } else if j == idx {
                // an earlier element against entry
                lemma_perm_le_total(dv[i], entry@);
                assert(dv[i] == before[i]);
                assert(!perm_le(entry@, before[i]));
                if before[i] == entry@ {
                    assert(before.contains(entry@)) by {
                        assert(before[i] == entry@);
                    }
                    assert(false);
                }
            } else if i < idx && j > idx {
                assert(dv[i] == before[i]);
                assert(dv[j] == before[j - 1]);
            } else if j < idx {
                assert(dv[i] == before[i]);
                assert(dv[j] == before[j]);
            } else {
                assert(dv[i] == before[i - 1]);
                assert(dv[j] == before[j - 1]);
            }
        }
        assert forall|x: Seq<char>|
            out.deep_view().contains(x) <==> (before.contains(x) || x == entry@) by {
            if out.deep_view().contains(x) {
                let k = choose|k: int| 0 <= k < out.deep_view().len() && out.deep_view()[k] == x;
                if k < idx {
                    assert(before[k] == x);
                } else if k > idx {
                    assert(before[k - 1] == x);
                }
            }
            if before.contains(x) {
                let k = choose|k: int| 0 <= k < before.len() && before[k] == x;
                if k < idx {
                    assert(out.deep_view()[k] == x);
                } else {
                    assert(out.deep_view()[k + 1] == x);
                }
            }
            assert(out.deep_view()[idx as int] == entry@);
        }
    }
}

/// Sort and deduplicate one side's entries; empty strings are dropped.
fn sorted_unique(entries: &Vec<String>) -> (r: Vec<String>)
    ensures
        forall|i: int, j: int|
            0 <= i < j < r@.len() ==> perm_le(#[trigger] r.deep_view()[i], #[trigger] r.deep_view()[j])
                && r.deep_view()[i] != r.deep_view()[j],
        forall|x: Seq<char>|
            r.deep_view().contains(x) <==> (entries.deep_view().contains(x) && x.len() > 0),
{
    let mut out: Vec<String> = Vec::new();
    let n = entries.len();
    let mut i: usize = 0;
    while i < n
        invariant
            n == entries@.len(),
            i <= n,
            forall|a: int, b: int|
                0 <= a < b < out@.len() ==> perm_le(
                    #[trigger] out.deep_view()[a],
                    #[trigger] out.deep_view()[b],
                ) && out.deep_view()[a] != out.deep_view()[b],
            forall|x: Seq<char>|
                out.deep_view().contains(x) <==> (entries.deep_view().take(i as int).contains(x)
                    && x.len() > 0),
        decreases n - i,
    {
        let ghost prefix = entries.deep_view().take(i as int);
        proof {
            assert(entries.deep_view().take(i + 1).drop_last() =~= prefix);
            assert(entries.deep_view().take(i + 1).last() == entries.deep_view()[i as int]);
            assert forall|x: Seq<char>|
                entries.deep_view().take(i + 1).contains(x) <==> (prefix.contains(x) || x
                    == entries.deep_view()[i as int]) by {
                if entries.deep_view().take(i + 1).contains(x) {
                    let k = choose|k: int|
                        0 <= k < i + 1 && #[trigger] entries.deep_view().take(i + 1)[k] == x;
                    if k < i {
                        assert(prefix[k] == x);
                    }
                }
                if prefix.contains(x) {
                    let k = choose|k: int| 0 <= k < i && prefix[k] == x;
                    assert(entries.deep_view().take(i + 1)[k] == x);
                }
                assert(entries.deep_view().take(i + 1)[i as int]
                    == entries.deep_view()[i as int]);
            }
        }
        if !entries[i].as_str().is_empty() && !contains_string(&out, entries[i].as_str()) {
            let cl = entries[i].clone();
            proof {
                assert(cl@ == entries.deep_view()[i as int]);
            }
            insert_sorted(&mut out, cl);
        }
        i = i + 1;
    }
    proof {
        assert(entries.deep_view().take(n as int) =~= entries.deep_view());
    }
    out
}

/// Gather permission entries: each side is deduplicated, cleared of empty
/// strings, and sorted by group and entry text.
pub fn collect_permissions(allow_entries: &Vec<String>, deny_entries: &Vec<String>) -> (r: (
    Vec<String>,
    Vec<String>,
))
    ensures
        forall|i: int, j: int|
            0 <= i < j < r.0@.len() ==> perm_le(
                #[trigger] r.0.deep_view()[i],
                #[trigger] r.0.deep_view()[j],
            ) && r.0.deep_view()[i] != r.0.deep_view()[j],
        forall|x: Seq<char>|
            r.0.deep_view().contains(x) <==> (allow_entries.deep_view().contains(x) && x.len()
                > 0),
        forall|i: int, j: int|
            0 <= i < j < r.1@.len() ==> perm_le(
                #[trigger] r.1.deep_view()[i],
                #[trigger] r.1.deep_view()[j],
            ) && r.1.deep_view()[i] != r.1.deep_view()[j],
        forall|x: Seq<char>|
            r.1.deep_view().contains(x) <==> (deny_entries.deep_view().contains(x) && x.len() > 0),
{
    (sorted_unique(allow_entries), sorted_unique(deny_entries))
}

} // verus!
