use vstd::prelude::*;

verus! {

/// A deployable item found in the repository, with its merged configuration.
#[derive(Clone, Debug)]
pub struct DiscoveredItem {
    pub name: String,
    pub enabled: bool,
    pub scope: String,
    pub on_path: Option<bool>,
}

/// Mathematical value of a `DiscoveredItem`.
#[verifier::ext_equal]
pub struct ItemView {
    pub name: Seq<char>,
    pub enabled: bool,
    pub scope: Seq<char>,
    pub on_path: Option<bool>,
}

impl View for DiscoveredItem {
    type V = ItemView;

    open spec fn view(&self) -> ItemView {
        ItemView {
            name: self.name@,
            enabled: self.enabled,
            scope: self.scope@,
            on_path: self.on_path,
        }
    }
}

/// Everything discovery found, one list per category.
#[derive(Clone, Debug)]
pub struct DiscoverResult {
    pub repo_root: String,
    pub profiles: Vec<String>,
    pub skills: Vec<DiscoveredItem>,
    pub hooks: Vec<DiscoveredItem>,
    pub mcp: Vec<DiscoveredItem>,
    pub permissions: Vec<DiscoveredItem>,
}

impl DiscoverResult {
    pub open spec fn skills_view(self) -> Seq<ItemView> {
        Seq::new(self.skills@.len(), |i: int| self.skills@[i]@)
    }

    pub open spec fn hooks_view(self) -> Seq<ItemView> {
        Seq::new(self.hooks@.len(), |i: int| self.hooks@[i]@)
    }

    pub open spec fn mcp_view(self) -> Seq<ItemView> {
        Seq::new(self.mcp@.len(), |i: int| self.mcp@[i]@)
    }

    pub open spec fn permissions_view(self) -> Seq<ItemView> {
        Seq::new(self.permissions@.len(), |i: int| self.permissions@[i]@)
    }
}

} // verus!

verus! {

/// Which items a profile would add or remove, per category.
#[derive(Clone, Debug)]
pub struct CategoryDiff {
    pub skills: Vec<String>,
    pub hooks: Vec<String>,
    pub mcp: Vec<String>,
    pub permissions: Vec<String>,
}

/// Discovered items not in a profile, and profile entries no longer on disk.
#[derive(Clone, Debug)]
pub struct ProfileDiff {
    pub added: CategoryDiff,
    pub removed: CategoryDiff,
}

/// The names of a list of discovered items, in order.
pub open spec fn item_names(items: Seq<ItemView>) -> Seq<Seq<char>> {
    Seq::new(items.len(), |i: int| items[i].name)
}

/// The elements of `s` that are not in `excluded`, in order.
pub open spec fn names_not_in(s: Seq<Seq<char>>, excluded: Seq<Seq<char>>) -> Seq<Seq<char>>
    decreases s.len(),
{
    if s.len() == 0 {
        Seq::empty()
    } else {
        let rest = names_not_in(s.drop_last(), excluded);
        if excluded.contains(s.last()) {
            rest
        } else {
            rest.push(s.last())
        }
    }
}

/// Names on disk that the profile does not mention.
fn added_of(items: &Vec<DiscoveredItem>, profile: &Vec<String>) -> (r: Vec<String>)
    ensures
        r.deep_view() == names_not_in(
            item_names(Seq::new(items@.len(), |i: int| items@[i]@)),
            profile.deep_view(),
        ),
{
    let ghost nv = item_names(Seq::new(items@.len(), |i: int| items@[i]@));
    let mut out: Vec<String> = Vec::new();
    let n = items.len();
    let mut i: usize = 0;
    while i < n
        invariant
            n == items@.len(),
            nv == item_names(Seq::new(items@.len(), |i: int| items@[i]@)),
            i <= n,
            out.deep_view() =~= names_not_in(nv.take(i as int), profile.deep_view()),
        decreases n - i,
    {
        proof {
            assert(nv.take(i + 1).drop_last() =~= nv.take(i as int));
            assert(nv.take(i + 1).last() == nv[i as int]);
        }
        let ghost prevout = out.deep_view();
        if !crate::strutil::contains_string(profile, items[i].name.as_str()) {
            let cl = items[i].name.clone();
            proof {
                assert(cl@ == nv[i as int]);
            }
            out.push(cl);
            proof {
                assert(out.deep_view() =~= prevout.push(nv[i as int]));
            }
        }
        proof {
            assert(out.deep_view() =~= names_not_in(nv.take(i + 1), profile.deep_view()));
        }
        i = i + 1;
    }
    proof {
        assert(nv.take(n as int) =~= nv);
    }
    out
}

/// Is some discovered item called `s`?
fn has_item_named(items: &Vec<DiscoveredItem>, s: &str) -> (r: bool)
    ensures
        r == item_names(Seq::new(items@.len(), |i: int| items@[i]@)).contains(s@),
{
    let ghost nv = item_names(Seq::new(items@.len(), |i: int| items@[i]@));
    let n = items.len();
    let mut i: usize = 0;
    while i < n
        invariant
            n == items@.len(),
            nv == item_names(Seq::new(items@.len(), |i: int| items@[i]@)),
            i <= n,
            forall|j: int| 0 <= j < i ==> nv[j] != s@,
        decreases n - i,
    {
        if crate::strutil::str_eq(items[i].name.as_str(), s) {
            proof {
                assert(nv[i as int] == s@);
            }
            return true;
        }
        i = i + 1;
    }
    false
}

/// Profile entries whose item is gone from disk.
fn removed_of(items: &Vec<DiscoveredItem>, profile: &Vec<String>) -> (r: Vec<String>)
    ensures
        r.deep_view() == names_not_in(
            profile.deep_view(),
            item_names(Seq::new(items@.len(), |i: int| items@[i]@)),
        ),
{
    let ghost nv = item_names(Seq::new(items@.len(), |i: int| items@[i]@));
    let ghost pv = profile.deep_view();
    let mut out: Vec<String> = Vec::new();
    let n = profile.len();
    let mut i: usize = 0;
    while i < n
        invariant
            n == profile@.len(),
            nv == item_names(Seq::new(items@.len(), |i: int| items@[i]@)),
            pv == profile.deep_view(),
            i <= n,
            out.deep_view() =~= names_not_in(pv.take(i as int), nv),
        decreases n - i,
    {
        proof {
            assert(pv.take(i + 1).drop_last() =~= pv.take(i as int));
            assert(pv.take(i + 1).last() == pv[i as int]);
        }
        let ghost prevout = out.deep_view();
        if !has_item_named(items, profile[i].as_str()) {
            let cl = profile[i].clone();
            proof {
                assert(cl@ == pv[i as int]);
            }
            out.push(cl);
            proof {
                assert(out.deep_view() =~= prevout.push(pv[i as int]));
            }
        }
        proof {
            assert(out.deep_view() =~= names_not_in(pv.take(i + 1), nv));
        }
        i = i + 1;
    }
    proof {
        assert(pv.take(n as int) =~= pv);
    }
    out
}

/// Compare what discovery found with the items a deployment profile names:
/// per category, what is on disk but not in the profile, and what the profile
/// names that is no longer on disk.
pub fn profile_diff(
    discover: &DiscoverResult,
    profile_skills: &Vec<String>,
    profile_hooks: &Vec<String>,
    profile_mcp: &Vec<String>,
    profile_permissions: &Vec<String>,
) -> (r: ProfileDiff)
    ensures
        r.added.skills.deep_view() == names_not_in(
            item_names(discover.skills_view()),
            profile_skills.deep_view(),
        ),
        r.added.hooks.deep_view() == names_not_in(
            item_names(discover.hooks_view()),
            profile_hooks.deep_view(),
        ),
        r.added.mcp.deep_view() == names_not_in(
            item_names(discover.mcp_view()),
            profile_mcp.deep_view(),
        ),
        r.added.permissions.deep_view() == names_not_in(
            item_names(discover.permissions_view()),
            profile_permissions.deep_view(),
        ),
        r.removed.skills.deep_view() == names_not_in(
            profile_skills.deep_view(),
            item_names(discover.skills_view()),
        ),
        r.removed.hooks.deep_view() == names_not_in(
            profile_hooks.deep_view(),
            item_names(discover.hooks_view()),
        ),
        r.removed.mcp.deep_view() == names_not_in(
            profile_mcp.deep_view(),
            item_names(discover.mcp_view()),
        ),
        r.removed.permissions.deep_view() == names_not_in(
            profile_permissions.deep_view(),
            item_names(discover.permissions_view()),
        ),
{
    let added = CategoryDiff {
        skills: added_of(&discover.skills, profile_skills),
        hooks: added_of(&discover.hooks, profile_hooks),
        mcp: added_of(&discover.mcp, profile_mcp),
        permissions: added_of(&discover.permissions, profile_permissions),
    };
    let removed = CategoryDiff {
        skills: removed_of(&discover.skills, profile_skills),
        hooks: removed_of(&discover.hooks, profile_hooks),
        mcp: removed_of(&discover.mcp, profile_mcp),
        permissions: removed_of(&discover.permissions, profile_permissions),
    };
    ProfileDiff { added, removed }
}

} // verus!
