//! Which of the shepherd's tools a call names, what it needs before it
//! runs, and what a call is answered when it cannot run: the decisions of
//! a tool call, apart from the work each tool does.

use vstd::prelude::*;
use crate::run_state::opt_view;
use crate::text::{concat, str_eq};
use crate::tool_args::{i64_arg, trimmed_arg, ShepherdToolProvider, ToolArgs};

verus! {

/// The tools a shepherd turn can call.
#[derive(Debug, Clone, Copy, PartialEq, Eq, Structural)]
pub enum ShepherdTool {
    ListRoutes,
    ForkRoute,
    SelectRoute,
    ArchiveRoute,
    SyncProject,
    ListWorkspace,
    ReadWorkspaceFile,
    GrepWorkspace,
    ReadProjectFocusView,
    UpdateProjectFocusView,
    ReadProjectRetainedContext,
    UpdateProjectRetainedContext,
    GetRouteWorkTree,
    CreateWorkItem,
    SplitWorkItem,
    AssignWorkItem,
    DelegateToWorker,
    ReopenWorkItem,
    ArchiveWorkItem,
    ReadWorkItem,
    ApplyPatchWorkItem,
    DeliveryValidateTarget,
    DeliveryGetVersions,
    DeliveryGetLatestVersion,
    DeliveryGetCurrent,
    DeliveryStart,
    DeliveryPublish,
    DeliveryMerge,
    DeliveryGetAttempts,
    DeliveryRetry,
    DeliveryComplete,
    DeliveryAbandon,
    ShepherdGetWorkers,
    ShepherdGetWorkerEvents,
    ShepherdGetWorkerConcerns,
    ShepherdResolveWorkerConcern,
}

impl ShepherdTool {
    /// The name a call gives the tool.
    pub open spec fn name(self) -> Seq<char> {
        match self {
            ShepherdTool::ListRoutes => "list_routes"@,
            ShepherdTool::ForkRoute => "fork_route"@,
            ShepherdTool::SelectRoute => "select_route"@,
            ShepherdTool::ArchiveRoute => "archive_route"@,
            ShepherdTool::SyncProject => "sync_project"@,
            ShepherdTool::ListWorkspace => "list_workspace"@,
            ShepherdTool::ReadWorkspaceFile => "read_workspace_file"@,
            ShepherdTool::GrepWorkspace => "grep_workspace"@,
            ShepherdTool::ReadProjectFocusView => "read_project_focus_view"@,
            ShepherdTool::UpdateProjectFocusView => "update_project_focus_view"@,
            ShepherdTool::ReadProjectRetainedContext => "read_project_retained_context"@,
            ShepherdTool::UpdateProjectRetainedContext => "update_project_retained_context"@,
            ShepherdTool::GetRouteWorkTree => "get_route_work_tree"@,
            ShepherdTool::CreateWorkItem => "create_work_item"@,
            ShepherdTool::SplitWorkItem => "split_work_item"@,
            ShepherdTool::AssignWorkItem => "assign_work_item"@,
            ShepherdTool::DelegateToWorker => "delegate_to_worker"@,
            ShepherdTool::ReopenWorkItem => "reopen_work_item"@,
            ShepherdTool::ArchiveWorkItem => "archive_work_item"@,
            ShepherdTool::ReadWorkItem => "read_work_item"@,
            ShepherdTool::ApplyPatchWorkItem => "apply_patch_work_item"@,
            ShepherdTool::DeliveryValidateTarget => "delivery_validate_target"@,
            ShepherdTool::DeliveryGetVersions => "delivery_get_versions"@,
            ShepherdTool::DeliveryGetLatestVersion => "delivery_get_latest_version"@,
            ShepherdTool::DeliveryGetCurrent => "delivery_get_current"@,
            ShepherdTool::DeliveryStart => "delivery_start"@,
            ShepherdTool::DeliveryPublish => "delivery_publish"@,
            ShepherdTool::DeliveryMerge => "delivery_merge"@,
            ShepherdTool::DeliveryGetAttempts => "delivery_get_attempts"@,
            ShepherdTool::DeliveryRetry => "delivery_retry"@,
            ShepherdTool::DeliveryComplete => "delivery_complete"@,
            ShepherdTool::DeliveryAbandon => "delivery_abandon"@,
            ShepherdTool::ShepherdGetWorkers => "shepherd_get_workers"@,
            ShepherdTool::ShepherdGetWorkerEvents => "shepherd_get_worker_events"@,
            ShepherdTool::ShepherdGetWorkerConcerns => "shepherd_get_worker_concerns"@,
            ShepherdTool::ShepherdResolveWorkerConcern => "shepherd_resolve_worker_concern"@,
        }
    }

    /// The tool a call names, if any.
    pub open spec fn named(s: Seq<char>) -> Option<ShepherdTool> {
        if s == "list_routes"@ {
            Some(ShepherdTool::ListRoutes)
        } else if s == "fork_route"@ {
            Some(ShepherdTool::ForkRoute)
        } else if s == "select_route"@ {
            Some(ShepherdTool::SelectRoute)
        } else if s == "archive_route"@ {
            Some(ShepherdTool::ArchiveRoute)
        } else if s == "sync_project"@ {
            Some(ShepherdTool::SyncProject)
        } else if s == "list_workspace"@ {
            Some(ShepherdTool::ListWorkspace)
        } else if s == "read_workspace_file"@ {
            Some(ShepherdTool::ReadWorkspaceFile)
        } else if s == "grep_workspace"@ {
            Some(ShepherdTool::GrepWorkspace)
        } else if s == "read_project_focus_view"@ {
            Some(ShepherdTool::ReadProjectFocusView)
        } else if s == "update_project_focus_view"@ {
            Some(ShepherdTool::UpdateProjectFocusView)
        } else if s == "read_project_retained_context"@ {
            Some(ShepherdTool::ReadProjectRetainedContext)
        } else if s == "update_project_retained_context"@ {
            Some(ShepherdTool::UpdateProjectRetainedContext)
        } else if s == "get_route_work_tree"@ {
            Some(ShepherdTool::GetRouteWorkTree)
        } else if s == "create_work_item"@ {
            Some(ShepherdTool::CreateWorkItem)
        } else if s == "split_work_item"@ {
            Some(ShepherdTool::SplitWorkItem)
        } else if s == "assign_work_item"@ {
            Some(ShepherdTool::AssignWorkItem)
        } else if s == "delegate_to_worker"@ {
            Some(ShepherdTool::DelegateToWorker)
        } else if s == "reopen_work_item"@ {
            Some(ShepherdTool::ReopenWorkItem)
        } else if s == "archive_work_item"@ {
            Some(ShepherdTool::ArchiveWorkItem)
        } else if s == "read_work_item"@ {
            Some(ShepherdTool::ReadWorkItem)
        } else if s == "apply_patch_work_item"@ {
            Some(ShepherdTool::ApplyPatchWorkItem)
        } else if s == "delivery_validate_target"@ {
            Some(ShepherdTool::DeliveryValidateTarget)
        } else if s == "delivery_get_versions"@ {
            Some(ShepherdTool::DeliveryGetVersions)
        } else if s == "delivery_get_latest_version"@ {
            Some(ShepherdTool::DeliveryGetLatestVersion)
        } else if s == "delivery_get_current"@ {
            Some(ShepherdTool::DeliveryGetCurrent)
        } else if s == "delivery_start"@ {
            Some(ShepherdTool::DeliveryStart)
        } else if s == "delivery_publish"@ {
            Some(ShepherdTool::DeliveryPublish)
        } else if s == "delivery_merge"@ {
            Some(ShepherdTool::DeliveryMerge)
        } else if s == "delivery_get_attempts"@ {
            Some(ShepherdTool::DeliveryGetAttempts)
        } else if s == "delivery_retry"@ {
            Some(ShepherdTool::DeliveryRetry)
        } else if s == "delivery_complete"@ {
            Some(ShepherdTool::DeliveryComplete)
        } else if s == "delivery_abandon"@ {
            Some(ShepherdTool::DeliveryAbandon)
        } else if s == "shepherd_get_workers"@ {
            Some(ShepherdTool::ShepherdGetWorkers)
        } else if s == "shepherd_get_worker_events"@ {
            Some(ShepherdTool::ShepherdGetWorkerEvents)
        } else if s == "shepherd_get_worker_concerns"@ {
            Some(ShepherdTool::ShepherdGetWorkerConcerns)
        } else if s == "shepherd_resolve_worker_concern"@ {
            Some(ShepherdTool::ShepherdResolveWorkerConcern)
        } else {
            None
        }
    }

    /// Whether the tool works on a route, which is resolved before it runs.
    pub open spec fn on_route(self) -> bool {
        match self {
            ShepherdTool::ListRoutes => false,
            ShepherdTool::ForkRoute => false,
            ShepherdTool::SelectRoute => false,
            ShepherdTool::ArchiveRoute => false,
            ShepherdTool::SyncProject => false,
            ShepherdTool::ListWorkspace => false,
            ShepherdTool::ReadWorkspaceFile => false,
            ShepherdTool::GrepWorkspace => false,
            ShepherdTool::ReadProjectFocusView => false,
            ShepherdTool::UpdateProjectFocusView => false,
            ShepherdTool::ReadProjectRetainedContext => false,
            ShepherdTool::UpdateProjectRetainedContext => false,
            _ => true,
        }
    }

    pub fn as_str(&self) -> (r: &'static str)
        ensures
            r@ == self.name(),
    {
        match self {
            ShepherdTool::ListRoutes => "list_routes",
            ShepherdTool::ForkRoute => "fork_route",
            ShepherdTool::SelectRoute => "select_route",
            ShepherdTool::ArchiveRoute => "archive_route",
            ShepherdTool::SyncProject => "sync_project",
            ShepherdTool::ListWorkspace => "list_workspace",
            ShepherdTool::ReadWorkspaceFile => "read_workspace_file",
            ShepherdTool::GrepWorkspace => "grep_workspace",
            ShepherdTool::ReadProjectFocusView => "read_project_focus_view",
            ShepherdTool::UpdateProjectFocusView => "update_project_focus_view",
            ShepherdTool::ReadProjectRetainedContext => "read_project_retained_context",
            ShepherdTool::UpdateProjectRetainedContext => "update_project_retained_context",
            ShepherdTool::GetRouteWorkTree => "get_route_work_tree",
            ShepherdTool::CreateWorkItem => "create_work_item",
            ShepherdTool::SplitWorkItem => "split_work_item",
            ShepherdTool::AssignWorkItem => "assign_work_item",
            ShepherdTool::DelegateToWorker => "delegate_to_worker",
            ShepherdTool::ReopenWorkItem => "reopen_work_item",
            ShepherdTool::ArchiveWorkItem => "archive_work_item",
            ShepherdTool::ReadWorkItem => "read_work_item",
            ShepherdTool::ApplyPatchWorkItem => "apply_patch_work_item",
            ShepherdTool::DeliveryValidateTarget => "delivery_validate_target",
            ShepherdTool::DeliveryGetVersions => "delivery_get_versions",
            ShepherdTool::DeliveryGetLatestVersion => "delivery_get_latest_version",
            ShepherdTool::DeliveryGetCurrent => "delivery_get_current",
            ShepherdTool::DeliveryStart => "delivery_start",
            ShepherdTool::DeliveryPublish => "delivery_publish",
            ShepherdTool::DeliveryMerge => "delivery_merge",
            ShepherdTool::DeliveryGetAttempts => "delivery_get_attempts",
            ShepherdTool::DeliveryRetry => "delivery_retry",
            ShepherdTool::DeliveryComplete => "delivery_complete",
            ShepherdTool::DeliveryAbandon => "delivery_abandon",
            ShepherdTool::ShepherdGetWorkers => "shepherd_get_workers",
            ShepherdTool::ShepherdGetWorkerEvents => "shepherd_get_worker_events",
            ShepherdTool::ShepherdGetWorkerConcerns => "shepherd_get_worker_concerns",
            ShepherdTool::ShepherdResolveWorkerConcern => "shepherd_resolve_worker_concern",
        }
    }

    /// The tool `s` names, if any.
    pub fn from_name(s: &str) -> (r: Option<ShepherdTool>)
        ensures
            r == ShepherdTool::named(s@),
    {
        if str_eq(s, "list_routes") {
            Some(ShepherdTool::ListRoutes)
        } else if str_eq(s, "fork_route") {
            Some(ShepherdTool::ForkRoute)
        } else if str_eq(s, "select_route") {
            Some(ShepherdTool::SelectRoute)
        } else if str_eq(s, "archive_route") {
            Some(ShepherdTool::ArchiveRoute)
        } else if str_eq(s, "sync_project") {
            Some(ShepherdTool::SyncProject)
        } else if str_eq(s, "list_workspace") {
            Some(ShepherdTool::ListWorkspace)
        } else if str_eq(s, "read_workspace_file") {
            Some(ShepherdTool::ReadWorkspaceFile)
        } else if str_eq(s, "grep_workspace") {
            Some(ShepherdTool::GrepWorkspace)
        } else if str_eq(s, "read_project_focus_view") {
            Some(ShepherdTool::ReadProjectFocusView)
        } else if str_eq(s, "update_project_focus_view") {
            Some(ShepherdTool::UpdateProjectFocusView)
        } else if str_eq(s, "read_project_retained_context") {
            Some(ShepherdTool::ReadProjectRetainedContext)
        } else if str_eq(s, "update_project_retained_context") {
            Some(ShepherdTool::UpdateProjectRetainedContext)
        } else if str_eq(s, "get_route_work_tree") {
            Some(ShepherdTool::GetRouteWorkTree)
        } else if str_eq(s, "create_work_item") {
            Some(ShepherdTool::CreateWorkItem)
        } else if str_eq(s, "split_work_item") {
            Some(ShepherdTool::SplitWorkItem)
        } else if str_eq(s, "assign_work_item") {
            Some(ShepherdTool::AssignWorkItem)
        } else if str_eq(s, "delegate_to_worker") {
            Some(ShepherdTool::DelegateToWorker)
        } else if str_eq(s, "reopen_work_item") {
            Some(ShepherdTool::ReopenWorkItem)
        } else if str_eq(s, "archive_work_item") {
            Some(ShepherdTool::ArchiveWorkItem)
        } else if str_eq(s, "read_work_item") {
            Some(ShepherdTool::ReadWorkItem)
        } else if str_eq(s, "apply_patch_work_item") {
            Some(ShepherdTool::ApplyPatchWorkItem)
        } else if str_eq(s, "delivery_validate_target") {
            Some(ShepherdTool::DeliveryValidateTarget)
        } else if str_eq(s, "delivery_get_versions") {
            Some(ShepherdTool::DeliveryGetVersions)
        } else if str_eq(s, "delivery_get_latest_version") {
            Some(ShepherdTool::DeliveryGetLatestVersion)
        } else if str_eq(s, "delivery_get_current") {
            Some(ShepherdTool::DeliveryGetCurrent)
        } else if str_eq(s, "delivery_start") {
            Some(ShepherdTool::DeliveryStart)
        } else if str_eq(s, "delivery_publish") {
            Some(ShepherdTool::DeliveryPublish)
        } else if str_eq(s, "delivery_merge") {
            Some(ShepherdTool::DeliveryMerge)
        } else if str_eq(s, "delivery_get_attempts") {
            Some(ShepherdTool::DeliveryGetAttempts)
        } else if str_eq(s, "delivery_retry") {
            Some(ShepherdTool::DeliveryRetry)
        } else if str_eq(s, "delivery_complete") {
            Some(ShepherdTool::DeliveryComplete)
        } else if str_eq(s, "delivery_abandon") {
            Some(ShepherdTool::DeliveryAbandon)
        } else if str_eq(s, "shepherd_get_workers") {
            Some(ShepherdTool::ShepherdGetWorkers)
        } else if str_eq(s, "shepherd_get_worker_events") {
            Some(ShepherdTool::ShepherdGetWorkerEvents)
        } else if str_eq(s, "shepherd_get_worker_concerns") {
            Some(ShepherdTool::ShepherdGetWorkerConcerns)
        } else if str_eq(s, "shepherd_resolve_worker_concern") {
            Some(ShepherdTool::ShepherdResolveWorkerConcern)
        } else {
            None
        }
    }

    /// Whether the tool works on a route.
    pub fn needs_route(&self) -> (r: bool)
        ensures
            r == self.on_route(),
    {
        match self {
            ShepherdTool::ListRoutes => false,
            ShepherdTool::ForkRoute => false,
            ShepherdTool::SelectRoute => false,
            ShepherdTool::ArchiveRoute => false,
            ShepherdTool::SyncProject => false,
            ShepherdTool::ListWorkspace => false,
            ShepherdTool::ReadWorkspaceFile => false,
            ShepherdTool::GrepWorkspace => false,
            ShepherdTool::ReadProjectFocusView => false,
            ShepherdTool::UpdateProjectFocusView => false,
            ShepherdTool::ReadProjectRetainedContext => false,
            ShepherdTool::UpdateProjectRetainedContext => false,
            _ => true,
        }
    }
}

/// How a tool call is refused: with a JSON object whose `error` is the
/// text, or with the text alone.
#[derive(Debug)]
pub enum ToolRefusal {
    Error(String),
    Message(String),
}

/// The first step of a tool call.
#[derive(Debug)]
pub enum ToolStep {
    /// The call is refused.
    Refuse(ToolRefusal),
    /// The tool runs on the project.
    OnProject(ShepherdTool, i64),
    /// The project's route is resolved, then the named tool, if any, runs
    /// on it.
    OnRoute(Option<ShepherdTool>, i64),
}

/// The project a call acts on: its `project_id` argument, else the scope's
/// project; an error when there is neither.
pub open spec fn call_project(default_project_id: Option<i64>, args: ToolArgs) -> Result<i64, Seq<char>> {
    match i64_arg(args.entries@, "project_id"@) {
        Some(p) => Ok(p),
        None => match default_project_id {
            Some(p) => Ok(p),
            None => Err("project_id is required outside project scope"@),
        },
    }
}

/// How a call of `name` with `args` starts: refused when it has no
/// project; a project tool runs on the project; anything else, a route tool
/// or an unknown name, waits for the route.
pub fn plan_tool_call(provider: &ShepherdToolProvider, name: &str, args: &ToolArgs) -> (r: ToolStep)
    ensures
        match call_project(provider.default_project_id, *args) {
            Err(e) => r matches ToolStep::Refuse(ToolRefusal::Error(m)) && m@ == e,
            Ok(p) => match ShepherdTool::named(name@) {
                Some(t) => if t.on_route() {
                    r == ToolStep::OnRoute(Some(t), p)
                } else {
                    r == ToolStep::OnProject(t, p)
                },
                None => r == ToolStep::OnRoute(None, p),
            },
        },
{
    let project_id = match provider.resolve_project_id(args) {
        Ok(p) => p,
        Err(e) => return ToolStep::Refuse(ToolRefusal::Error(e)),
    };
    match ShepherdTool::from_name(name) {
        Some(t) => if t.needs_route() {
            ToolStep::OnRoute(Some(t), project_id)
        } else {
            ToolStep::OnProject(t, project_id)
        },
        None => ToolStep::OnRoute(None, project_id),
    }
}

/// What runs once the route is known.
#[derive(Debug)]
pub enum RouteCall {
    /// The tool's own work.
    Run(ShepherdTool),
    /// Check a delivery target.
    ValidateTarget { target_branch: String, remote_url: Option<String> },
    /// List the attempts of a delivery.
    GetAttempts { delivery_id: i64 },
    /// Try a delivery again.
    Retry { delivery_id: i64 },
    /// Close a delivery with an action.
    Complete { delivery_id: i64, action: String, summary: Option<String>, remote_url: Option<String> },
}

/// What a call of `tool` (named `name`) with `args` runs once its route is
/// resolved: an unknown name is refused, the delivery tools whose work is
/// a single step take their parameters here and are refused without them,
/// and every other tool runs its own work.
pub fn route_call(tool: Option<ShepherdTool>, name: &str, args: &ToolArgs) -> (r: Result<RouteCall, ToolRefusal>)
    ensures
        match tool {
            None => r matches Err(ToolRefusal::Error(m)) && m@ == "Unknown tool: "@ + name@,
            Some(ShepherdTool::DeliveryValidateTarget) => match trimmed_arg(args.entries@, "target_branch"@) {
                None => r matches Err(ToolRefusal::Message(m)) && m@ == "Missing required parameter: target_branch"@,
                Some(b) => r matches Ok(RouteCall::ValidateTarget { target_branch, remote_url })
                    && target_branch@ == b && opt_view(remote_url) == trimmed_arg(args.entries@, "remote_url"@),
            },
            Some(ShepherdTool::DeliveryGetAttempts) => match i64_arg(args.entries@, "delivery_id"@) {
                None => r matches Err(ToolRefusal::Message(m)) && m@ == "Missing required parameter: delivery_id"@,
                Some(d) => r matches Ok(RouteCall::GetAttempts { delivery_id }) && delivery_id == d,
            },
            Some(ShepherdTool::DeliveryRetry) => match i64_arg(args.entries@, "delivery_id"@) {
                None => r matches Err(ToolRefusal::Message(m)) && m@ == "Missing required parameter: delivery_id"@,
                Some(d) => r matches Ok(RouteCall::Retry { delivery_id }) && delivery_id == d,
            },
            Some(ShepherdTool::DeliveryComplete) => match i64_arg(args.entries@, "delivery_id"@) {
                None => r matches Err(ToolRefusal::Message(m)) && m@ == "Missing required parameter: delivery_id"@,
                Some(d) => match trimmed_arg(args.entries@, "action"@) {
                    None => r matches Err(ToolRefusal::Message(m)) && m@ == "Missing required parameter: action"@,
                    Some(a) => r matches Ok(RouteCall::Complete { delivery_id, action, summary, remote_url })
                        && delivery_id == d && action@ == a
                        && opt_view(summary) == trimmed_arg(args.entries@, "summary"@)
                        && opt_view(remote_url) == trimmed_arg(args.entries@, "remote_url"@),
                },
            },
            Some(t) => r matches Ok(RouteCall::Run(x)) && x == t,
        },
{
    let t = match tool {
        None => return Err(ToolRefusal::Error(concat("Unknown tool: ", name))),
        Some(t) => t,
    };
    match t {
        ShepherdTool::DeliveryValidateTarget => {
            let target_branch = match ShepherdToolProvider::trimmed_string(args, "target_branch") {
                Some(b) => b,
                None => return Err(ToolRefusal::Message("Missing required parameter: target_branch".to_owned())),
            };
            let remote_url = ShepherdToolProvider::trimmed_string(args, "remote_url");
            Ok(RouteCall::ValidateTarget { target_branch, remote_url })
        },
        ShepherdTool::DeliveryGetAttempts => match ShepherdToolProvider::arg_i64(args, "delivery_id") {
            Some(d) => Ok(RouteCall::GetAttempts { delivery_id: d }),
            None => Err(ToolRefusal::Message("Missing required parameter: delivery_id".to_owned())),
        },
        ShepherdTool::DeliveryRetry => match ShepherdToolProvider::arg_i64(args, "delivery_id") {
            Some(d) => Ok(RouteCall::Retry { delivery_id: d }),
            None => Err(ToolRefusal::Message("Missing required parameter: delivery_id".to_owned())),
        },
        ShepherdTool::DeliveryComplete => {
            let delivery_id = match ShepherdToolProvider::arg_i64(args, "delivery_id") {
                Some(d) => d,
                None => return Err(ToolRefusal::Message("Missing required parameter: delivery_id".to_owned())),
            };
            let action = match ShepherdToolProvider::trimmed_string(args, "action") {
                Some(a) => a,
                None => return Err(ToolRefusal::Message("Missing required parameter: action".to_owned())),
            };
            let summary = ShepherdToolProvider::trimmed_string(args, "summary");
            let remote_url = ShepherdToolProvider::trimmed_string(args, "remote_url");
            Ok(RouteCall::Complete { delivery_id, action, summary, remote_url })
        },
        _ => Ok(RouteCall::Run(t)),
    }
}

/// Which route a route tool works on.
#[derive(Debug)]
pub enum RouteRequest {
    /// The route of that name.
    ByName(String),
    /// The route of that id.
    ById(i64),
    /// The project's selected route.
    Selected,
}

/// The route a call asks for: by its non-blank `route_name`, else by its
/// `route_id`, else the project's selected route.
pub fn route_request(args: &ToolArgs) -> (r: RouteRequest)
    ensures
        match trimmed_arg(args.entries@, "route_name"@) {
            Some(n) => r matches RouteRequest::ByName(x) && x@ == n,
            None => match i64_arg(args.entries@, "route_id"@) {
                Some(id) => r matches RouteRequest::ById(x) && x == id,
                None => r is Selected,
            },
        },
{
    if let Some(name) = ShepherdToolProvider::trimmed_string(args, "route_name") {
        return RouteRequest::ByName(name);
    }
    match ShepherdToolProvider::arg_i64(args, "route_id") {
        Some(id) => RouteRequest::ById(id),
        None => RouteRequest::Selected,
    }
}

/// The answer when no route has the name a call asked for.
pub fn route_not_found(name: &str) -> (r: String)
    ensures
        r@ == "Route '"@ + name@ + "' not found"@,
{
    crate::text::concat3("Route '", name, "' not found")
}

} // verus!
