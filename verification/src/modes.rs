use vstd::prelude::*;

verus! {

/// Destination classification of a deployable item: the single global
/// location, a list of named projects, or not deployed at all.
#[derive(Clone, Debug, PartialEq, Eq)]
pub enum AssignedMode {
    Global,
    Project(Vec<String>),
    Skip,
}

/// Mathematical value of an `AssignedMode`: project aliases as
/// sequences of characters.
#[verifier::ext_equal]
pub enum ModeView {
    Global,
    Project(Seq<Seq<char>>),
    Skip,
}

impl View for AssignedMode {
    type V = ModeView;

    open spec fn view(&self) -> ModeView {
        match self {
            AssignedMode::Global => ModeView::Global,
            AssignedMode::Project(aliases) => ModeView::Project(aliases.deep_view()),
            AssignedMode::Skip => ModeView::Skip,
        }
    }
}

impl ModeView {
    pub open spec fn is_global(self) -> bool {
        self is Global
    }

    /// `Project` with no aliases counts as skipped: an empty alias list is a
    /// transient editing state and never deploys anywhere.
    pub open spec fn is_skip(self) -> bool {
        match self {
            ModeView::Skip => true,
            ModeView::Project(aliases) => aliases.len() == 0,
            ModeView::Global => false,
        }
    }

    /// Aliases carried by the mode; empty for `Global` and `Skip`.
    pub open spec fn aliases(self) -> Seq<Seq<char>> {
        match self {
            ModeView::Project(aliases) => aliases,
            _ => Seq::empty(),
        }
    }
}

/// Badge text shown for a mode.
pub open spec fn spec_badge(m: ModeView) -> Seq<char> {
    match m {
        ModeView::Global => "GLOBAL"@,
        ModeView::Project(_) => "PROJECT"@,
        ModeView::Skip => "SKIP"@,
    }
}

impl AssignedMode {
    /// Display badge text for the mode column.
    pub fn badge(&self) -> (r: String)
        ensures
            r@ == spec_badge(self@),
    {
        match self {
            AssignedMode::Global => "GLOBAL".to_owned(),
            AssignedMode::Project(_) => "PROJECT".to_owned(),
            AssignedMode::Skip => "SKIP".to_owned(),
        }
    }

    pub fn is_skip(&self) -> (r: bool)
        ensures
            r == self@.is_skip(),
    {
        match self {
            AssignedMode::Skip => true,
            AssignedMode::Project(aliases) => aliases.len() == 0,
            AssignedMode::Global => false,
        }
    }

    pub fn is_global(&self) -> (r: bool)
        ensures
            r == self@.is_global(),
    {
        matches!(self, AssignedMode::Global)
    }

    /// The joined alias list shown in the rightmost column; nothing unless
    /// the mode is `Project` of at least one alias.
    pub fn project_label(&self) -> (r: Option<String>)
        ensures
            r is Some <==> (self@ is Project && self@.aliases().len() > 0),
            r is Some ==> r->0@ == crate::strutil::spec_join(self@.aliases(), ", "@),
    {
        match self {
            AssignedMode::Project(aliases) => {
                if aliases.len() > 0 {
                    Some(crate::strutil::join_strings(aliases, ", "))
                } else {
                    None
                }
            },
            _ => None,
        }
    }

    /// A copy with the same value.
    pub fn clone_mode(&self) -> (r: AssignedMode)
        ensures
            r@ == self@,
    {
        match self {
            AssignedMode::Global => AssignedMode::Global,
            AssignedMode::Skip => AssignedMode::Skip,
            AssignedMode::Project(aliases) => {
                let mut out: Vec<String> = Vec::new();
                let n = aliases.len();
                let mut i: usize = 0;
                while i < n
                    invariant
                        n == aliases@.len(),
                        i <= n,
                        out@.len() == i,
                        forall|j: int|
                            0 <= j < i ==> out.deep_view()[j] == aliases.deep_view()[j],
                    decreases n - i,
                {
                    let cl = aliases[i].clone();
                    proof {
                        assert(cl@ == aliases@[i as int]@);
                    }
                    out.push(cl);
                    i = i + 1;
                }
                proof {
                    assert(out.deep_view() =~= aliases.deep_view());
                }
                AssignedMode::Project(out)
            },
        }
    }
}

/// Cycle a mode one step: `Global -> Project([]) -> Skip -> Global` when at
/// least one project is registered, `Global -> Skip -> Global` otherwise.
pub open spec fn spec_next_mode(m: ModeView, has_projects: bool) -> ModeView {
    match m {
        ModeView::Global => if has_projects {
            ModeView::Project(Seq::empty())
        } else {
            ModeView::Skip
        },
        ModeView::Project(_) => ModeView::Skip,
        ModeView::Skip => ModeView::Global,
    }
}

/// One step of the mode cycle.
pub fn next_mode(current: &AssignedMode, has_projects: bool) -> (r: AssignedMode)
    ensures
        r@ == spec_next_mode(current@, has_projects),
{
    match current {
        AssignedMode::Global => {
            if has_projects {
                let aliases: Vec<String> = Vec::new();
                assert(aliases.deep_view() =~= Seq::<Seq<char>>::empty());
                AssignedMode::Project(aliases)
            } else {
                AssignedMode::Skip
            }
        },
        AssignedMode::Project(_) => AssignedMode::Skip,
        AssignedMode::Skip => AssignedMode::Global,
    }
}

/// Cycling `2 * n` steps from any mode returns to a mode with the same value,
/// for every positive `n` and fixed project availability; the cycle is a
/// closed loop. An empty-alias `Project` re-enters the loop at `Skip`, so the
/// law is stated over `cycle_start`, the mode's re-entry point.
pub open spec fn cycle_start(m: ModeView, has_projects: bool) -> ModeView {
    match m {
        ModeView::Project(aliases) => if has_projects {
            ModeView::Project(Seq::empty())
        } else {
            // without projects the cycle never visits Project; re-enter at Skip
            ModeView::Skip
        },
        _ => m,
    }
}

/// Iterated cycling.
pub open spec fn spec_cycle_n(m: ModeView, has_projects: bool, n: nat) -> ModeView
    decreases n,
{
    if n == 0 {
        m
    } else {
        spec_next_mode(spec_cycle_n(m, has_projects, (n - 1) as nat), has_projects)
    }
}

/// The mode cycle is a closed loop: starting anywhere on the loop, cycling
/// twice the number of distinct modes (with projects: 3, without: 2) lands
/// back on the starting mode.
pub proof fn lemma_cycle_closed(m: ModeView, has_projects: bool)
    ensures
        has_projects ==> spec_cycle_n(cycle_start(m, has_projects), has_projects, 6)
            == cycle_start(m, has_projects),
        !has_projects ==> spec_cycle_n(cycle_start(m, has_projects), has_projects, 4)
            == cycle_start(m, has_projects),
{
    reveal_with_fuel(spec_cycle_n, 7);
    let s = cycle_start(m, has_projects);
    if has_projects {
        assert(spec_cycle_n(s, has_projects, 6) == s);
    } else {
        assert(spec_cycle_n(s, has_projects, 4) == s);
    }
}

/// The category an item belongs to.
#[derive(Clone, Copy, Debug, PartialEq, Eq)]
pub enum Category {
    Skills,
    Hooks,
    Mcp,
    Permissions,
}

/// Header label for a category, as the deploy log prints it.
pub open spec fn spec_category_label(c: Category) -> Seq<char> {
    match c {
        Category::Skills => "SKILLS"@,
        Category::Hooks => "HOOKS"@,
        Category::Mcp => "MCP"@,
        Category::Permissions => "PERMISSIONS"@,
    }
}

impl Category {
    /// Upper-case display label.
    pub fn label(&self) -> (r: String)
        ensures
            r@ == spec_category_label(*self),
    {
        match self {
            Category::Skills => "SKILLS".to_owned(),
            Category::Hooks => "HOOKS".to_owned(),
            Category::Mcp => "MCP".to_owned(),
            Category::Permissions => "PERMISSIONS".to_owned(),
        }
    }
}

} // verus!
