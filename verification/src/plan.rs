use vstd::prelude::*;

verus! {

/// A deploy plan: names for the global pass, names per project path, and the
/// scripts to put on PATH per skill. Built fresh on every deploy request and
/// consumed by one deploy session.
#[derive(Clone, Debug)]
pub struct DeployPlan {
    pub global_items: Vec<String>,
    pub project_items: Vec<(String, Vec<String>)>,
    pub on_path_scripts: Vec<(String, Vec<String>)>,
}

/// Mathematical value of a `DeployPlan`.
#[verifier::ext_equal]
pub struct PlanView {
    pub global_items: Seq<Seq<char>>,
    pub project_items: Seq<(Seq<char>, Seq<Seq<char>>)>,
    pub on_path_scripts: Seq<(Seq<char>, Seq<Seq<char>>)>,
}

impl View for DeployPlan {
    type V = PlanView;

    open spec fn view(&self) -> PlanView {
        PlanView {
            global_items: self.global_items.deep_view(),
            project_items: Seq::new(
                self.project_items@.len(),
                |i: int|
                    (self.project_items@[i].0@, self.project_items@[i].1.deep_view()),
            ),
            on_path_scripts: Seq::new(
                self.on_path_scripts@.len(),
                |i: int|
                    (self.on_path_scripts@[i].0@, self.on_path_scripts@[i].1.deep_view()),
            ),
        }
    }
}

} // verus!

verus! {

/// What one Deployer pass reports back in structured form: the item names it
/// worked through per category, and every line it printed.
#[derive(Clone, Debug)]
pub struct DeploySummary {
    pub skills_deployed: Vec<String>,
    pub hooks_deployed: Vec<String>,
    pub mcp_registered: Vec<String>,
    pub permissions_applied: Vec<String>,
    pub output_lines: Vec<String>,
}

} // verus!
