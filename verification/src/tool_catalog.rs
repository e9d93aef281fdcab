//! The catalogue of the shepherd's tools: what each takes and returns,
//! in the order a turn is offered them, and which of them a scope without a
//! workspace leaves out.

use vstd::prelude::*;
use crate::tool_args::ShepherdToolProvider;
use crate::tool_dispatch::ShepherdTool;

verus! {

/// A parameter of a tool: its name, its type and whether a call must give
/// it.
#[derive(Debug)]
pub struct ToolParam {
    pub name: String,
    pub kind: String,
    pub required: bool,
}

impl ToolParam {
    /// A parameter a call must give.
    pub fn typed(name: &str, kind: &str) -> (r: ToolParam)
        ensures
            r.name@ == name@,
            r.kind@ == kind@,
            r.required,
    {
        ToolParam { name: name.to_owned(), kind: kind.to_owned(), required: true }
    }

    /// A parameter a call may leave out.
    pub fn optional(name: &str, kind: &str) -> (r: ToolParam)
        ensures
            r.name@ == name@,
            r.kind@ == kind@,
            !r.required,
    {
        ToolParam { name: name.to_owned(), kind: kind.to_owned(), required: false }
    }
}

/// What a parameter declares.
pub open spec fn param_view(p: ToolParam) -> (Seq<char>, Seq<char>, bool) {
    (p.name@, p.kind@, p.required)
}

/// What the parameters `ps` declare, in order.
pub open spec fn param_views(ps: Seq<ToolParam>) -> Seq<(Seq<char>, Seq<char>, bool)> {
    ps.map_values(|p: ToolParam| param_view(p))
}

/// A tool as a turn is offered it.
#[derive(Debug)]
pub struct ToolDefinition {
    pub name: String,
    pub description: String,
    pub params: Vec<ToolParam>,
    /// The kind of value the tool answers with.
    pub returns: String,
    pub enabled: bool,
    pub injected: bool,
}

/// The tools a turn is offered, in order; the workspace tools only when the
/// scope has a workspace.
pub open spec fn defined_tools(has_workspace: bool) -> Seq<ShepherdTool> {
    seq![ShepherdTool::ListRoutes, ShepherdTool::ForkRoute, ShepherdTool::SelectRoute, ShepherdTool::ArchiveRoute, ShepherdTool::SyncProject]
        + if has_workspace { seq![ShepherdTool::ListWorkspace, ShepherdTool::ReadWorkspaceFile, ShepherdTool::GrepWorkspace] } else { Seq::empty() }
        + seq![
            ShepherdTool::GetRouteWorkTree,
            ShepherdTool::CreateWorkItem,
            ShepherdTool::SplitWorkItem,
            ShepherdTool::AssignWorkItem,
            ShepherdTool::ReopenWorkItem,
            ShepherdTool::ArchiveWorkItem,
            ShepherdTool::DeliveryValidateTarget,
            ShepherdTool::DeliveryGetVersions,
            ShepherdTool::DeliveryGetLatestVersion,
            ShepherdTool::DeliveryGetCurrent,
            ShepherdTool::DeliveryStart,
            ShepherdTool::DeliveryPublish,
            ShepherdTool::DeliveryMerge,
            ShepherdTool::DeliveryGetAttempts,
            ShepherdTool::DeliveryRetry,
            ShepherdTool::DeliveryComplete,
            ShepherdTool::DeliveryAbandon,
            ShepherdTool::ShepherdGetWorkers,
            ShepherdTool::ShepherdGetWorkerEvents,
            ShepherdTool::DelegateToWorker,
            ShepherdTool::ShepherdGetWorkerConcerns,
            ShepherdTool::ShepherdResolveWorkerConcern,
            ShepherdTool::ReadProjectFocusView,
            ShepherdTool::UpdateProjectFocusView,
            ShepherdTool::ReadProjectRetainedContext,
            ShepherdTool::UpdateProjectRetainedContext,
            ShepherdTool::ReadWorkItem,
            ShepherdTool::ApplyPatchWorkItem,
        ]
}

/// The parameters each tool declares.
pub open spec fn tool_params(t: ShepherdTool) -> Seq<(Seq<char>, Seq<char>, bool)> {
    match t {
        ShepherdTool::ListRoutes => seq![("project_id"@, "int"@, false)],
        ShepherdTool::ForkRoute => seq![("name"@, "str"@, true), ("parent_route_name"@, "str"@, false), ("project_id"@, "int"@, false)],
        ShepherdTool::SelectRoute => seq![("name"@, "str"@, true), ("project_id"@, "int"@, false)],
        ShepherdTool::ArchiveRoute => seq![("name"@, "str"@, true), ("project_id"@, "int"@, false)],
        ShepherdTool::SyncProject => seq![("refresh"@, "bool"@, false), ("project_id"@, "int"@, false), ("route_name"@, "str"@, false)],
        ShepherdTool::ListWorkspace => seq![("path"@, "str"@, false), ("max_depth"@, "int"@, false), ("project_id"@, "int"@, false)],
        ShepherdTool::ReadWorkspaceFile => seq![("path"@, "str"@, true), ("offset"@, "int"@, false), ("limit"@, "int"@, false), ("project_id"@, "int"@, false)],
        ShepherdTool::GrepWorkspace => seq![("pattern"@, "str"@, true), ("path"@, "str"@, false), ("project_id"@, "int"@, false)],
        ShepherdTool::GetRouteWorkTree => seq![("project_id"@, "int"@, false), ("route_name"@, "str"@, false)],
        ShepherdTool::CreateWorkItem => seq![("title"@, "str"@, true), ("description"@, "str"@, false), ("parent_id"@, "str"@, false), ("blocked_by"@, "list"@, false), ("project_id"@, "int"@, false), ("route_name"@, "str"@, false)],
        ShepherdTool::SplitWorkItem => seq![("item_id"@, "str"@, true), ("items"@, "list"@, true), ("project_id"@, "int"@, false), ("route_name"@, "str"@, false)],
        ShepherdTool::AssignWorkItem => seq![("item_id"@, "str"@, true), ("agent_kind"@, "str"@, false), ("agent_id"@, "str"@, false), ("capability_profile"@, "str"@, false), ("project_id"@, "int"@, false), ("route_name"@, "str"@, false)],
        ShepherdTool::ReopenWorkItem => seq![("item_id"@, "str"@, true), ("project_id"@, "int"@, false), ("route_name"@, "str"@, false)],
        ShepherdTool::ArchiveWorkItem => seq![("item_id"@, "str"@, true), ("project_id"@, "int"@, false), ("route_name"@, "str"@, false)],
        ShepherdTool::DeliveryValidateTarget => seq![("target_branch"@, "str"@, true), ("remote_url"@, "str"@, false), ("project_id"@, "int"@, false), ("route_name"@, "str"@, false)],
        ShepherdTool::DeliveryGetVersions => seq![("project_id"@, "int"@, false), ("route_name"@, "str"@, false)],
        ShepherdTool::DeliveryGetLatestVersion => seq![("project_id"@, "int"@, false), ("route_name"@, "str"@, false)],
        ShepherdTool::DeliveryGetCurrent => seq![("project_id"@, "int"@, false), ("route_name"@, "str"@, false)],
        ShepherdTool::DeliveryStart => seq![("target_branch"@, "str"@, true), ("version_id"@, "int"@, false), ("remote_url"@, "str"@, false), ("project_id"@, "int"@, false), ("route_name"@, "str"@, false)],
        ShepherdTool::DeliveryPublish => seq![("delivery_id"@, "int"@, false), ("target_branch"@, "str"@, false), ("version_id"@, "int"@, false), ("publish_as"@, "str"@, false), ("summary"@, "str"@, false), ("remote_url"@, "str"@, false), ("project_id"@, "int"@, false), ("route_name"@, "str"@, false)],
        ShepherdTool::DeliveryMerge => seq![("delivery_id"@, "int"@, false), ("target_branch"@, "str"@, false), ("version_id"@, "int"@, false), ("summary"@, "str"@, false), ("remote_url"@, "str"@, false), ("project_id"@, "int"@, false), ("route_name"@, "str"@, false)],
        ShepherdTool::DeliveryGetAttempts => seq![("delivery_id"@, "int"@, true), ("project_id"@, "int"@, false), ("route_name"@, "str"@, false)],
        ShepherdTool::DeliveryRetry => seq![("delivery_id"@, "int"@, true), ("project_id"@, "int"@, false), ("route_name"@, "str"@, false)],
        ShepherdTool::DeliveryComplete => seq![("delivery_id"@, "int"@, true), ("action"@, "str"@, true), ("summary"@, "str"@, false), ("remote_url"@, "str"@, false), ("project_id"@, "int"@, false), ("route_name"@, "str"@, false)],
        ShepherdTool::DeliveryAbandon => seq![("delivery_id"@, "int"@, false), ("project_id"@, "int"@, false), ("route_name"@, "str"@, false)],
        ShepherdTool::ShepherdGetWorkers => seq![("project_id"@, "int"@, false), ("route_name"@, "str"@, false)],
        ShepherdTool::ShepherdGetWorkerEvents => seq![("worker_name"@, "str"@, true), ("after_id"@, "int"@, false), ("limit"@, "int"@, false), ("project_id"@, "int"@, false), ("route_name"@, "str"@, false)],
        ShepherdTool::DelegateToWorker => seq![("item_id"@, "str"@, true), ("capability_profile"@, "str"@, true), ("worker_name"@, "str"@, false), ("project_id"@, "int"@, false), ("route_name"@, "str"@, false)],
        ShepherdTool::ShepherdGetWorkerConcerns => seq![("include_resolved"@, "bool"@, false), ("limit"@, "int"@, false), ("project_id"@, "int"@, false), ("route_name"@, "str"@, false)],
        ShepherdTool::ShepherdResolveWorkerConcern => seq![("concern_id"@, "int"@, true), ("resolution"@, "str"@, false)],
        ShepherdTool::ReadProjectFocusView => seq![("project_id"@, "int"@, false)],
        ShepherdTool::UpdateProjectFocusView => seq![("html"@, "str"@, true), ("source"@, "str"@, false), ("project_id"@, "int"@, false)],
        ShepherdTool::ReadProjectRetainedContext => seq![("project_id"@, "int"@, false)],
        ShepherdTool::UpdateProjectRetainedContext => seq![("markdown"@, "str"@, true), ("source"@, "str"@, false), ("project_id"@, "int"@, false)],
        ShepherdTool::ReadWorkItem => seq![("node_id"@, "str"@, true), ("offset"@, "int"@, false), ("limit"@, "int"@, false), ("project_id"@, "int"@, false), ("route_name"@, "str"@, false)],
        ShepherdTool::ApplyPatchWorkItem => seq![("node_id"@, "str"@, true), ("input"@, "str"@, true), ("project_id"@, "int"@, false), ("route_name"@, "str"@, false)],
    }
}

/// The kind of value each tool answers with.
pub open spec fn tool_returns(t: ShepherdTool) -> Seq<char> {
    match t {
        ShepherdTool::UpdateProjectFocusView => "EditResult"@,
        ShepherdTool::UpdateProjectRetainedContext => "EditResult"@,
        ShepherdTool::ApplyPatchWorkItem => "EditResult"@,
        _ => "dict"@,
    }
}

/// The parameters `t` declares.
pub fn params_of(t: ShepherdTool) -> (r: Vec<ToolParam>)
    ensures
        param_views(r@) == tool_params(t),
{
    let v = match t {
        ShepherdTool::ListRoutes => vec![ToolParam::optional("project_id", "int")],
        ShepherdTool::ForkRoute => vec![ToolParam::typed("name", "str"), ToolParam::optional("parent_route_name", "str"), ToolParam::optional("project_id", "int")],
        ShepherdTool::SelectRoute => vec![ToolParam::typed("name", "str"), ToolParam::optional("project_id", "int")],
        ShepherdTool::ArchiveRoute => vec![ToolParam::typed("name", "str"), ToolParam::optional("project_id", "int")],
        ShepherdTool::SyncProject => vec![ToolParam::optional("refresh", "bool"), ToolParam::optional("project_id", "int"), ToolParam::optional("route_name", "str")],
        ShepherdTool::ListWorkspace => vec![ToolParam::optional("path", "str"), ToolParam::optional("max_depth", "int"), ToolParam::optional("project_id", "int")],
        ShepherdTool::ReadWorkspaceFile => vec![ToolParam::typed("path", "str"), ToolParam::optional("offset", "int"), ToolParam::optional("limit", "int"), ToolParam::optional("project_id", "int")],
        ShepherdTool::GrepWorkspace => vec![ToolParam::typed("pattern", "str"), ToolParam::optional("path", "str"), ToolParam::optional("project_id", "int")],
        ShepherdTool::GetRouteWorkTree => vec![ToolParam::optional("project_id", "int"), ToolParam::optional("route_name", "str")],
        ShepherdTool::CreateWorkItem => vec![ToolParam::typed("title", "str"), ToolParam::optional("description", "str"), ToolParam::optional("parent_id", "str"), ToolParam::optional("blocked_by", "list"), ToolParam::optional("project_id", "int"), ToolParam::optional("route_name", "str")],
        ShepherdTool::SplitWorkItem => vec![ToolParam::typed("item_id", "str"), ToolParam::typed("items", "list"), ToolParam::optional("project_id", "int"), ToolParam::optional("route_name", "str")],
        ShepherdTool::AssignWorkItem => vec![ToolParam::typed("item_id", "str"), ToolParam::optional("agent_kind", "str"), ToolParam::optional("agent_id", "str"), ToolParam::optional("capability_profile", "str"), ToolParam::optional("project_id", "int"), ToolParam::optional("route_name", "str")],
        ShepherdTool::ReopenWorkItem => vec![ToolParam::typed("item_id", "str"), ToolParam::optional("project_id", "int"), ToolParam::optional("route_name", "str")],
        ShepherdTool::ArchiveWorkItem => vec![ToolParam::typed("item_id", "str"), ToolParam::optional("project_id", "int"), ToolParam::optional("route_name", "str")],
        ShepherdTool::DeliveryValidateTarget => vec![ToolParam::typed("target_branch", "str"), ToolParam::optional("remote_url", "str"), ToolParam::optional("project_id", "int"), ToolParam::optional("route_name", "str")],
        ShepherdTool::DeliveryGetVersions => vec![ToolParam::optional("project_id", "int"), ToolParam::optional("route_name", "str")],
        ShepherdTool::DeliveryGetLatestVersion => vec![ToolParam::optional("project_id", "int"), ToolParam::optional("route_name", "str")],
        ShepherdTool::DeliveryGetCurrent => vec![ToolParam::optional("project_id", "int"), ToolParam::optional("route_name", "str")],
        ShepherdTool::DeliveryStart => vec![ToolParam::typed("target_branch", "str"), ToolParam::optional("version_id", "int"), ToolParam::optional("remote_url", "str"), ToolParam::optional("project_id", "int"), ToolParam::optional("route_name", "str")],
        ShepherdTool::DeliveryPublish => vec![ToolParam::optional("delivery_id", "int"), ToolParam::optional("target_branch", "str"), ToolParam::optional("version_id", "int"), ToolParam::optional("publish_as", "str"), ToolParam::optional("summary", "str"), ToolParam::optional("remote_url", "str"), ToolParam::optional("project_id", "int"), ToolParam::optional("route_name", "str")],
        ShepherdTool::DeliveryMerge => vec![ToolParam::optional("delivery_id", "int"), ToolParam::optional("target_branch", "str"), ToolParam::optional("version_id", "int"), ToolParam::optional("summary", "str"), ToolParam::optional("remote_url", "str"), ToolParam::optional("project_id", "int"), ToolParam::optional("route_name", "str")],
        ShepherdTool::DeliveryGetAttempts => vec![ToolParam::typed("delivery_id", "int"), ToolParam::optional("project_id", "int"), ToolParam::optional("route_name", "str")],
        ShepherdTool::DeliveryRetry => vec![ToolParam::typed("delivery_id", "int"), ToolParam::optional("project_id", "int"), ToolParam::optional("route_name", "str")],
        ShepherdTool::DeliveryComplete => vec![ToolParam::typed("delivery_id", "int"), ToolParam::typed("action", "str"), ToolParam::optional("summary", "str"), ToolParam::optional("remote_url", "str"), ToolParam::optional("project_id", "int"), ToolParam::optional("route_name", "str")],
        ShepherdTool::DeliveryAbandon => vec![ToolParam::optional("delivery_id", "int"), ToolParam::optional("project_id", "int"), ToolParam::optional("route_name", "str")],
        ShepherdTool::ShepherdGetWorkers => vec![ToolParam::optional("project_id", "int"), ToolParam::optional("route_name", "str")],
        ShepherdTool::ShepherdGetWorkerEvents => vec![ToolParam::typed("worker_name", "str"), ToolParam::optional("after_id", "int"), ToolParam::optional("limit", "int"), ToolParam::optional("project_id", "int"), ToolParam::optional("route_name", "str")],
        ShepherdTool::DelegateToWorker => vec![ToolParam::typed("item_id", "str"), ToolParam::typed("capability_profile", "str"), ToolParam::optional("worker_name", "str"), ToolParam::optional("project_id", "int"), ToolParam::optional("route_name", "str")],
        ShepherdTool::ShepherdGetWorkerConcerns => vec![ToolParam::optional("include_resolved", "bool"), ToolParam::optional("limit", "int"), ToolParam::optional("project_id", "int"), ToolParam::optional("route_name", "str")],
        ShepherdTool::ShepherdResolveWorkerConcern => vec![ToolParam::typed("concern_id", "int"), ToolParam::optional("resolution", "str")],
        ShepherdTool::ReadProjectFocusView => vec![ToolParam::optional("project_id", "int")],
        ShepherdTool::UpdateProjectFocusView => vec![ToolParam::typed("html", "str"), ToolParam::optional("source", "str"), ToolParam::optional("project_id", "int")],
        ShepherdTool::ReadProjectRetainedContext => vec![ToolParam::optional("project_id", "int")],
        ShepherdTool::UpdateProjectRetainedContext => vec![ToolParam::typed("markdown", "str"), ToolParam::optional("source", "str"), ToolParam::optional("project_id", "int")],
        ShepherdTool::ReadWorkItem => vec![ToolParam::typed("node_id", "str"), ToolParam::optional("offset", "int"), ToolParam::optional("limit", "int"), ToolParam::optional("project_id", "int"), ToolParam::optional("route_name", "str")],
        ShepherdTool::ApplyPatchWorkItem => vec![ToolParam::typed("node_id", "str"), ToolParam::typed("input", "str"), ToolParam::optional("project_id", "int"), ToolParam::optional("route_name", "str")],
    };
    assert(param_views(v@) =~= tool_params(t));
    v
}

/// The kind of value `t` answers with.
pub fn returns_of(t: ShepherdTool) -> (r: &'static str)
    ensures
        r@ == tool_returns(t),
{
    match t {
        ShepherdTool::UpdateProjectFocusView => "EditResult",
        ShepherdTool::UpdateProjectRetainedContext => "EditResult",
        ShepherdTool::ApplyPatchWorkItem => "EditResult",
        _ => "dict",
    }
}

/// What each tool is for, as a turn reads it.
pub open spec fn tool_description(t: ShepherdTool) -> Seq<char> {
    match t {
        ShepherdTool::ListRoutes => "List active routes for the project and show which route is currently selected."@,
        ShepherdTool::ForkRoute => "Fork a new route by name. Uses parent_route_name when provided; otherwise forks from the selected route."@,
        ShepherdTool::SelectRoute => "Select the project's route by unique name. Route-scoped tools default to this route when route_name is omitted."@,
        ShepherdTool::ArchiveRoute => "Archive a route by unique name. Archived routes drop out of normal active route flows."@,
        ShepherdTool::SyncProject => "Ensure the route has a real Sync project umbrella task and request that the main orchestrator perform the onboarding or refresh pass for the existing codebase."@,
        ShepherdTool::ListWorkspace => "List files and directories inside the attached route workspace. Paths must stay relative to that workspace."@,
        ShepherdTool::ReadWorkspaceFile => "Read a text file from the attached route workspace. The path must be relative to that workspace."@,
        ShepherdTool::GrepWorkspace => "Search text files inside the attached route workspace using a regex pattern."@,
        ShepherdTool::GetRouteWorkTree => "Return the current route work tree. Uses the selected route when route_name is omitted."@,
        ShepherdTool::CreateWorkItem => "Create a new work item on a route. Uses the selected route when route_name is omitted."@,
        ShepherdTool::SplitWorkItem => "Split a work item into child work items. Each entry in items should include at least a title."@,
        ShepherdTool::AssignWorkItem => "Assign a work item to an orchestrator or worker."@,
        ShepherdTool::ReopenWorkItem => "Reopen a work item so it returns to pending."@,
        ShepherdTool::ArchiveWorkItem => "Archive a work item on a route."@,
        ShepherdTool::DeliveryValidateTarget => "Validate whether a route can be delivered to a target branch. Uses the selected route when route_name is omitted."@,
        ShepherdTool::DeliveryGetVersions => "List published board versions available for delivery on a route. Uses the selected route when route_name is omitted."@,
        ShepherdTool::DeliveryGetLatestVersion => "Get the latest board version for a route. Uses the selected route when route_name is omitted."@,
        ShepherdTool::DeliveryGetCurrent => "Get the current non-terminal delivery for a route. Uses the selected route when route_name is omitted."@,
        ShepherdTool::DeliveryStart => "Start a new delivery for a route. Uses the latest board version when version_id is omitted."@,
        ShepherdTool::DeliveryPublish => "Publish a route delivery by pushing a branch or opening a PR. Reuses the current delivery when available, or starts one if needed."@,
        ShepherdTool::DeliveryMerge => "Merge a route delivery. Reuses the current delivery when available, or starts one if needed."@,
        ShepherdTool::DeliveryGetAttempts => "Get retry history for a delivery on a route."@,
        ShepherdTool::DeliveryRetry => "Retry a failed delivery on a route."@,
        ShepherdTool::DeliveryComplete => "Complete an existing delivery using action 'push', 'pr', or 'merge'."@,
        ShepherdTool::DeliveryAbandon => "Abandon the current or specified delivery on a route."@,
        ShepherdTool::ShepherdGetWorkers => "List workers currently attached to a route. Uses the selected route when route_name is omitted."@,
        ShepherdTool::ShepherdGetWorkerEvents => "Get worker output or tool events for a route worker. Uses the selected route when route_name is omitted."@,
        ShepherdTool::DelegateToWorker => "Delegate a work item to a sandbox worker on a route. capability_profile should normally be code_worker or ops_worker."@,
        ShepherdTool::ShepherdGetWorkerConcerns => "List worker-raised concerns and progress reports for a route. Uses the selected route when route_name is omitted."@,
        ShepherdTool::ShepherdResolveWorkerConcern => "Resolve a worker concern after the orchestrator handles it."@,
        ShepherdTool::ReadProjectFocusView => "Read the current project-focus HTML artifact for this project."@,
        ShepherdTool::UpdateProjectFocusView => "Replace the project-focus HTML artifact for this project with a full HTML document. Inline Mermaid setup is allowed."@,
        ShepherdTool::ReadProjectRetainedContext => "Read the current project-level retained context markdown for this project."@,
        ShepherdTool::UpdateProjectRetainedContext => "Replace the project-level retained context markdown for this project."@,
        ShepherdTool::ReadWorkItem => "Read the description/content of a work item by ID."@,
        ShepherdTool::ApplyPatchWorkItem => "Apply an apply_patch patch to the description/content of a work item by ID."@,
    }
}

/// What `t` is for, as a turn reads it.
pub fn description_of(t: ShepherdTool) -> (r: &'static str)
    ensures
        r@ == tool_description(t),
{
    match t {
        ShepherdTool::ListRoutes => "List active routes for the project and show which route is currently selected.",
        ShepherdTool::ForkRoute => "Fork a new route by name. Uses parent_route_name when provided; otherwise forks from the selected route.",
        ShepherdTool::SelectRoute => "Select the project's route by unique name. Route-scoped tools default to this route when route_name is omitted.",
        ShepherdTool::ArchiveRoute => "Archive a route by unique name. Archived routes drop out of normal active route flows.",
        ShepherdTool::SyncProject => "Ensure the route has a real Sync project umbrella task and request that the main orchestrator perform the onboarding or refresh pass for the existing codebase.",
        ShepherdTool::ListWorkspace => "List files and directories inside the attached route workspace. Paths must stay relative to that workspace.",
        ShepherdTool::ReadWorkspaceFile => "Read a text file from the attached route workspace. The path must be relative to that workspace.",
        ShepherdTool::GrepWorkspace => "Search text files inside the attached route workspace using a regex pattern.",
        ShepherdTool::GetRouteWorkTree => "Return the current route work tree. Uses the selected route when route_name is omitted.",
        ShepherdTool::CreateWorkItem => "Create a new work item on a route. Uses the selected route when route_name is omitted.",
        ShepherdTool::SplitWorkItem => "Split a work item into child work items. Each entry in items should include at least a title.",
        ShepherdTool::AssignWorkItem => "Assign a work item to an orchestrator or worker.",
        ShepherdTool::ReopenWorkItem => "Reopen a work item so it returns to pending.",
        ShepherdTool::ArchiveWorkItem => "Archive a work item on a route.",
        ShepherdTool::DeliveryValidateTarget => "Validate whether a route can be delivered to a target branch. Uses the selected route when route_name is omitted.",
        ShepherdTool::DeliveryGetVersions => "List published board versions available for delivery on a route. Uses the selected route when route_name is omitted.",
        ShepherdTool::DeliveryGetLatestVersion => "Get the latest board version for a route. Uses the selected route when route_name is omitted.",
        ShepherdTool::DeliveryGetCurrent => "Get the current non-terminal delivery for a route. Uses the selected route when route_name is omitted.",
        ShepherdTool::DeliveryStart => "Start a new delivery for a route. Uses the latest board version when version_id is omitted.",
        ShepherdTool::DeliveryPublish => "Publish a route delivery by pushing a branch or opening a PR. Reuses the current delivery when available, or starts one if needed.",
        ShepherdTool::DeliveryMerge => "Merge a route delivery. Reuses the current delivery when available, or starts one if needed.",
        ShepherdTool::DeliveryGetAttempts => "Get retry history for a delivery on a route.",
        ShepherdTool::DeliveryRetry => "Retry a failed delivery on a route.",
        ShepherdTool::DeliveryComplete => "Complete an existing delivery using action 'push', 'pr', or 'merge'.",
        ShepherdTool::DeliveryAbandon => "Abandon the current or specified delivery on a route.",
        ShepherdTool::ShepherdGetWorkers => "List workers currently attached to a route. Uses the selected route when route_name is omitted.",
        ShepherdTool::ShepherdGetWorkerEvents => "Get worker output or tool events for a route worker. Uses the selected route when route_name is omitted.",
        ShepherdTool::DelegateToWorker => "Delegate a work item to a sandbox worker on a route. capability_profile should normally be code_worker or ops_worker.",
        ShepherdTool::ShepherdGetWorkerConcerns => "List worker-raised concerns and progress reports for a route. Uses the selected route when route_name is omitted.",
        ShepherdTool::ShepherdResolveWorkerConcern => "Resolve a worker concern after the orchestrator handles it.",
        ShepherdTool::ReadProjectFocusView => "Read the current project-focus HTML artifact for this project.",
        ShepherdTool::UpdateProjectFocusView => "Replace the project-focus HTML artifact for this project with a full HTML document. Inline Mermaid setup is allowed.",
        ShepherdTool::ReadProjectRetainedContext => "Read the current project-level retained context markdown for this project.",
        ShepherdTool::UpdateProjectRetainedContext => "Replace the project-level retained context markdown for this project.",
        ShepherdTool::ReadWorkItem => "Read the description/content of a work item by ID.",
        ShepherdTool::ApplyPatchWorkItem => "Apply an apply_patch patch to the description/content of a work item by ID.",
    }
}

impl ToolDefinition {
    /// The definition of `t`.
    pub fn of(t: ShepherdTool) -> (r: ToolDefinition)
        ensures
            r.name@ == t.name(),
            r.description@ == tool_description(t),
            param_views(r.params@) == tool_params(t),
            r.returns@ == tool_returns(t),
            r.enabled,
            r.injected,
    {
        ToolDefinition {
            name: t.as_str().to_owned(),
            description: description_of(t).to_owned(),
            params: params_of(t),
            returns: returns_of(t).to_owned(),
            enabled: true,
            injected: true,
        }
    }
}

/// The tools a turn is offered, in order.
pub fn tool_order(has_workspace: bool) -> (r: Vec<ShepherdTool>)
    ensures
        r@ == defined_tools(has_workspace),
{
    let mut v = vec![ShepherdTool::ListRoutes, ShepherdTool::ForkRoute, ShepherdTool::SelectRoute, ShepherdTool::ArchiveRoute, ShepherdTool::SyncProject];
    if has_workspace {
        v.push(ShepherdTool::ListWorkspace);
        v.push(ShepherdTool::ReadWorkspaceFile);
        v.push(ShepherdTool::GrepWorkspace);
    }
    v.push(ShepherdTool::GetRouteWorkTree);
    v.push(ShepherdTool::CreateWorkItem);
    v.push(ShepherdTool::SplitWorkItem);
    v.push(ShepherdTool::AssignWorkItem);
    v.push(ShepherdTool::ReopenWorkItem);
    v.push(ShepherdTool::ArchiveWorkItem);
    v.push(ShepherdTool::DeliveryValidateTarget);
    v.push(ShepherdTool::DeliveryGetVersions);
    v.push(ShepherdTool::DeliveryGetLatestVersion);
    v.push(ShepherdTool::DeliveryGetCurrent);
    v.push(ShepherdTool::DeliveryStart);
    v.push(ShepherdTool::DeliveryPublish);
    v.push(ShepherdTool::DeliveryMerge);
    v.push(ShepherdTool::DeliveryGetAttempts);
    v.push(ShepherdTool::DeliveryRetry);
    v.push(ShepherdTool::DeliveryComplete);
    v.push(ShepherdTool::DeliveryAbandon);
    v.push(ShepherdTool::ShepherdGetWorkers);
    v.push(ShepherdTool::ShepherdGetWorkerEvents);
    v.push(ShepherdTool::DelegateToWorker);
    v.push(ShepherdTool::ShepherdGetWorkerConcerns);
    v.push(ShepherdTool::ShepherdResolveWorkerConcern);
    v.push(ShepherdTool::ReadProjectFocusView);
    v.push(ShepherdTool::UpdateProjectFocusView);
    v.push(ShepherdTool::ReadProjectRetainedContext);
    v.push(ShepherdTool::UpdateProjectRetainedContext);
    v.push(ShepherdTool::ReadWorkItem);
    v.push(ShepherdTool::ApplyPatchWorkItem);
    assert(v@ =~= defined_tools(has_workspace));
    v
}

/// The definitions of the tools a turn is offered, in order: one for each
/// tool of `defined_tools`, with its name, parameters and answer.
pub fn definitions_for(has_workspace: bool) -> (r: Vec<ToolDefinition>)
    ensures
        r@.len() == defined_tools(has_workspace).len(),
        forall|i: int| 0 <= i < r@.len() ==> {
            let t = #[trigger] defined_tools(has_workspace)[i];
            &&& r@[i].name@ == t.name()
            &&& r@[i].description@ == tool_description(t)
            &&& param_views(r@[i].params@) == tool_params(t)
            &&& r@[i].returns@ == tool_returns(t)
            &&& r@[i].enabled
            &&& r@[i].injected
        },
{
    let order = tool_order(has_workspace);
    let mut out: Vec<ToolDefinition> = Vec::new();
    let mut i: usize = 0;
    while i < order.len()
        invariant
            i <= order.len(),
            order@ == defined_tools(has_workspace),
            out@.len() == i,
            forall|k: int| 0 <= k < i ==> {
                let t = #[trigger] defined_tools(has_workspace)[k];
                &&& out@[k].name@ == t.name()
                &&& out@[k].description@ == tool_description(t)
                &&& param_views(out@[k].params@) == tool_params(t)
                &&& out@[k].returns@ == tool_returns(t)
                &&& out@[k].enabled
                &&& out@[k].injected
            },
        decreases order.len() - i,
    {
        out.push(ToolDefinition::of(order[i]));
        i = i + 1;
    }
    out
}

impl ShepherdToolProvider {
    /// The definitions of the tools this provider offers: those of
    /// `defined_tools`, with the workspace tools when it has a workspace.
    pub fn definitions(&self) -> (r: Vec<ToolDefinition>)
        ensures
            r@.len() == defined_tools(self.workspace_root is Some).len(),
            forall|i: int| 0 <= i < r@.len() ==> {
                let t = #[trigger] defined_tools(self.workspace_root is Some)[i];
                &&& r@[i].name@ == t.name()
            &&& r@[i].description@ == tool_description(t)
                &&& param_views(r@[i].params@) == tool_params(t)
                &&& r@[i].returns@ == tool_returns(t)
                &&& r@[i].enabled
                &&& r@[i].injected
            },
    {
        definitions_for(self.workspace_root.is_some())
    }
}

/// Whether `t` reads the scope's workspace.
pub open spec fn is_workspace_tool(t: ShepherdTool) -> bool {
    t == ShepherdTool::ListWorkspace || t == ShepherdTool::ReadWorkspaceFile || t == ShepherdTool::GrepWorkspace
}

/// The place of `t` among all the tools, in the order they are offered.
pub open spec fn rank(t: ShepherdTool) -> int {
    match t {
        ShepherdTool::ListRoutes => 0,
        ShepherdTool::ForkRoute => 1,
        ShepherdTool::SelectRoute => 2,
        ShepherdTool::ArchiveRoute => 3,
        ShepherdTool::SyncProject => 4,
        ShepherdTool::ListWorkspace => 5,
        ShepherdTool::ReadWorkspaceFile => 6,
        ShepherdTool::GrepWorkspace => 7,
        ShepherdTool::GetRouteWorkTree => 8,
        ShepherdTool::CreateWorkItem => 9,
        ShepherdTool::SplitWorkItem => 10,
        ShepherdTool::AssignWorkItem => 11,
        ShepherdTool::ReopenWorkItem => 12,
        ShepherdTool::ArchiveWorkItem => 13,
        ShepherdTool::DeliveryValidateTarget => 14,
        ShepherdTool::DeliveryGetVersions => 15,
        ShepherdTool::DeliveryGetLatestVersion => 16,
        ShepherdTool::DeliveryGetCurrent => 17,
        ShepherdTool::DeliveryStart => 18,
        ShepherdTool::DeliveryPublish => 19,
        ShepherdTool::DeliveryMerge => 20,
        ShepherdTool::DeliveryGetAttempts => 21,
        ShepherdTool::DeliveryRetry => 22,
        ShepherdTool::DeliveryComplete => 23,
        ShepherdTool::DeliveryAbandon => 24,
        ShepherdTool::ShepherdGetWorkers => 25,
        ShepherdTool::ShepherdGetWorkerEvents => 26,
        ShepherdTool::DelegateToWorker => 27,
        ShepherdTool::ShepherdGetWorkerConcerns => 28,
        ShepherdTool::ShepherdResolveWorkerConcern => 29,
        ShepherdTool::ReadProjectFocusView => 30,
        ShepherdTool::UpdateProjectFocusView => 31,
        ShepherdTool::ReadProjectRetainedContext => 32,
        ShepherdTool::UpdateProjectRetainedContext => 33,
        ShepherdTool::ReadWorkItem => 34,
        ShepherdTool::ApplyPatchWorkItem => 35,
    }
}

/// The tool at place `i` among all the tools.
pub open spec fn tool_at(i: int) -> ShepherdTool {
    if i == 0 {
        ShepherdTool::ListRoutes
    } else if i == 1 {
        ShepherdTool::ForkRoute
    } else if i == 2 {
        ShepherdTool::SelectRoute
    } else if i == 3 {
        ShepherdTool::ArchiveRoute
    } else if i == 4 {
        ShepherdTool::SyncProject
    } else if i == 5 {
        ShepherdTool::ListWorkspace
    } else if i == 6 {
        ShepherdTool::ReadWorkspaceFile
    } else if i == 7 {
        ShepherdTool::GrepWorkspace
    } else if i == 8 {
        ShepherdTool::GetRouteWorkTree
    } else if i == 9 {
        ShepherdTool::CreateWorkItem
    } else if i == 10 {
        ShepherdTool::SplitWorkItem
    } else if i == 11 {
        ShepherdTool::AssignWorkItem
    } else if i == 12 {
        ShepherdTool::ReopenWorkItem
    } else if i == 13 {
        ShepherdTool::ArchiveWorkItem
    } else if i == 14 {
        ShepherdTool::DeliveryValidateTarget
    } else if i == 15 {
        ShepherdTool::DeliveryGetVersions
    } else if i == 16 {
        ShepherdTool::DeliveryGetLatestVersion
    } else if i == 17 {
        ShepherdTool::DeliveryGetCurrent
    } else if i == 18 {
        ShepherdTool::DeliveryStart
    } else if i == 19 {
        ShepherdTool::DeliveryPublish
    } else if i == 20 {
        ShepherdTool::DeliveryMerge
    } else if i == 21 {
        ShepherdTool::DeliveryGetAttempts
    } else if i == 22 {
        ShepherdTool::DeliveryRetry
    } else if i == 23 {
        ShepherdTool::DeliveryComplete
    } else if i == 24 {
        ShepherdTool::DeliveryAbandon
    } else if i == 25 {
        ShepherdTool::ShepherdGetWorkers
    } else if i == 26 {
        ShepherdTool::ShepherdGetWorkerEvents
    } else if i == 27 {
        ShepherdTool::DelegateToWorker
    } else if i == 28 {
        ShepherdTool::ShepherdGetWorkerConcerns
    } else if i == 29 {
        ShepherdTool::ShepherdResolveWorkerConcern
    } else if i == 30 {
        ShepherdTool::ReadProjectFocusView
    } else if i == 31 {
        ShepherdTool::UpdateProjectFocusView
    } else if i == 32 {
        ShepherdTool::ReadProjectRetainedContext
    } else if i == 33 {
        ShepherdTool::UpdateProjectRetainedContext
    } else if i == 34 {
        ShepherdTool::ReadWorkItem
    } else {
        ShepherdTool::ApplyPatchWorkItem
    }
}

/// The places of the tools: each tool has one, and the tool at each place
/// has that place.
proof fn lemma_places()
    ensures
        forall|t: ShepherdTool| 0 <= #[trigger] rank(t) < 36 && tool_at(rank(t)) == t,
        forall|i: int| 0 <= i < 36 ==> rank(#[trigger] tool_at(i)) == i,
        defined_tools(true) =~= Seq::new(36, |i: int| tool_at(i)),
        defined_tools(false) =~= Seq::new(33, |i: int| tool_at(if i < 5 { i } else { i + 3 })),
{
    assert forall|t: ShepherdTool| 0 <= #[trigger] rank(t) < 36 && tool_at(rank(t)) == t by {
        match t {
        ShepherdTool::ListRoutes => {},
        ShepherdTool::ForkRoute => {},
        ShepherdTool::SelectRoute => {},
        ShepherdTool::ArchiveRoute => {},
        ShepherdTool::SyncProject => {},
        ShepherdTool::ListWorkspace => {},
        ShepherdTool::ReadWorkspaceFile => {},
        ShepherdTool::GrepWorkspace => {},
        ShepherdTool::GetRouteWorkTree => {},
        ShepherdTool::CreateWorkItem => {},
        ShepherdTool::SplitWorkItem => {},
        ShepherdTool::AssignWorkItem => {},
        ShepherdTool::ReopenWorkItem => {},
        ShepherdTool::ArchiveWorkItem => {},
        ShepherdTool::DeliveryValidateTarget => {},
        ShepherdTool::DeliveryGetVersions => {},
        ShepherdTool::DeliveryGetLatestVersion => {},
        ShepherdTool::DeliveryGetCurrent => {},
        ShepherdTool::DeliveryStart => {},
        ShepherdTool::DeliveryPublish => {},
        ShepherdTool::DeliveryMerge => {},
        ShepherdTool::DeliveryGetAttempts => {},
        ShepherdTool::DeliveryRetry => {},
        ShepherdTool::DeliveryComplete => {},
        ShepherdTool::DeliveryAbandon => {},
        ShepherdTool::ShepherdGetWorkers => {},
        ShepherdTool::ShepherdGetWorkerEvents => {},
        ShepherdTool::DelegateToWorker => {},
        ShepherdTool::ShepherdGetWorkerConcerns => {},
        ShepherdTool::ShepherdResolveWorkerConcern => {},
        ShepherdTool::ReadProjectFocusView => {},
        ShepherdTool::UpdateProjectFocusView => {},
        ShepherdTool::ReadProjectRetainedContext => {},
        ShepherdTool::UpdateProjectRetainedContext => {},
        ShepherdTool::ReadWorkItem => {},
        ShepherdTool::ApplyPatchWorkItem => {},
        }
    }
}

/// With a workspace, a turn is offered every tool a call can name, each
/// once; without one, every tool but those that read the workspace, each
/// once.
pub proof fn lemma_every_tool_is_offered(t: ShepherdTool)
    ensures
        defined_tools(true).contains(t),
        defined_tools(true).no_duplicates(),
        defined_tools(false).contains(t) <==> !is_workspace_tool(t),
        defined_tools(false).no_duplicates(),
{
    lemma_places();
    let all = defined_tools(true);
    let some = defined_tools(false);
    assert(all[rank(t)] == t);
    assert forall|i: int, j: int| 0 <= i < all.len() && 0 <= j < all.len() && i != j implies all[i] != all[j] by {
        assert(rank(all[i]) == i && rank(all[j]) == j);
    }
    assert forall|i: int, j: int| 0 <= i < some.len() && 0 <= j < some.len() && i != j implies some[i] != some[j] by {
        let a = if i < 5 { i } else { i + 3 };
        let b = if j < 5 { j } else { j + 3 };
        assert(rank(tool_at(a)) == a && rank(tool_at(b)) == b);
    }
    if !is_workspace_tool(t) {
        let k = if rank(t) < 5 { rank(t) } else { rank(t) - 3 };
        assert(some[k] == t);
    } else {
        assert forall|i: int| 0 <= i < some.len() implies some[i] != t by {
            let a = if i < 5 { i } else { i + 3 };
            assert(rank(tool_at(a)) == a);
        }
    }
}

} // verus!
