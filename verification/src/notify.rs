//! The notification model of the bus: the closed union of everything that
//! flows to the boundary layer, the routing path of each notification, its
//! human-readable description, and the advisory-flag update a forwarded
//! indexing notification applies to the registry.

use vstd::prelude::*;

verus! {

use vstd::string::StringExecFns;
use crate::lsp::{IndexingStage, LspNotification, stage_view, StageView};
use crate::registry::{ProjectDescription, ProjectRegistry, ProjectEntry};
use crate::text::{dec_digits, str_to_chars, chars_to_string, usize_to_string};

/// A tool invocation mirrored onto the bus: its payload rendered as text,
/// and the project it concerns.
#[derive(Clone, Debug)]
pub enum McpNotification {
    Request { content: String, project: String },
    Response { content: String, project: String },
}

/// Everything the bus forwards to the boundary layer.
#[derive(Clone, Debug)]
pub enum ContextNotification {
    Lsp(LspNotification),
    Mcp(McpNotification),
    ProjectAdded(String),
    ProjectRemoved(String),
    ProjectDescriptions(Vec<ProjectDescription>),
}

/// The routing path of a notification: the project it belongs to, or the
/// sentinel of the registry snapshot.
pub open spec fn spec_notification_path(n: ContextNotification) -> Seq<char> {
    match n {
        ContextNotification::Lsp(LspNotification::Indexing { project, .. }) => project@,
        ContextNotification::Mcp(McpNotification::Request { project, .. }) => project@,
        ContextNotification::Mcp(McpNotification::Response { project, .. }) => project@,
        ContextNotification::ProjectAdded(project) => project@,
        ContextNotification::ProjectRemoved(project) => project@,
        ContextNotification::ProjectDescriptions(_) => "project_descriptions"@,
    }
}

/// The displayed percentage of a count pair: one hundred times the current
/// count over the total, clamped to the width of the display type; a zero
/// total shows zero for no progress and the clamp value otherwise.
pub open spec fn pct_value(c: int, t: int) -> int {
    if t == 0 {
        if c == 0 {
            0
        } else {
            u32::MAX as int
        }
    } else {
        if c * 100 / t > u32::MAX {
            u32::MAX as int
        } else {
            c * 100 / t
        }
    }
}

/// How many of the described projects are indexing.
pub open spec fn count_indexing(descs: Seq<ProjectDescription>) -> nat
    decreases descs.len(),
{
    if descs.len() == 0 {
        0
    } else {
        count_indexing(descs.drop_last()) + (if descs.last().is_indexing_lsp {
            1nat
        } else {
            0nat
        })
    }
}

/// The icon of a stage.
pub open spec fn stage_icon(s: StageView) -> Seq<char> {
    match s {
        StageView::Building => "[build]"@,
        StageView::CachePriming => "[cache]"@,
        StageView::Indexing => "[index]"@,
        StageView::Unknown(_) => "[stage]"@,
    }
}

/// The display name of a stage.
pub open spec fn stage_name(s: StageView) -> Seq<char> {
    match s {
        StageView::Building => "Building"@,
        StageView::CachePriming => "Cache Priming"@,
        StageView::Indexing => "Indexing"@,
        StageView::Unknown(t) => t,
    }
}

/// The description of a notification, exactly as the boundary layer prints
/// it.
pub open spec fn spec_description(n: ContextNotification) -> Seq<char> {
    match n {
        ContextNotification::Lsp(LspNotification::Indexing { is_indexing, progress, .. }) => {
            if is_indexing {
                match progress {
                    Some(p) => {
                        let head = stage_icon(stage_view(p.stage)) + " "@ + stage_name(
                            stage_view(p.stage),
                        );
                        let counted = if p.current_count is Some && p.total_count is Some {
                            head + " ["@ + dec_digits(p.current_count->Some_0 as nat) + "/"@
                                + dec_digits(p.total_count->Some_0 as nat) + "] "@ + dec_digits(
                                pct_value(
                                    p.current_count->Some_0 as int,
                                    p.total_count->Some_0 as int,
                                ) as nat,
                            ) + "%"@
                        } else if p.percentage is Some {
                            head + " "@ + dec_digits(p.percentage->Some_0 as nat) + "%"@
                        } else {
                            head
                        };
                        if p.current_crate is Some {
                            counted + " crate "@ + p.current_crate->Some_0@
                        } else {
                            counted
                        }
                    },
                    None => "LSP Indexing: Started"@,
                }
            } else {
                "LSP Indexing: Finished"@
            }
        },
        ContextNotification::Mcp(McpNotification::Request { content, .. }) => "MCP Request: "@
            + content@,
        ContextNotification::Mcp(McpNotification::Response { content, .. }) => "MCP Response: "@
            + content@,
        ContextNotification::ProjectAdded(_) => "Project Added"@,
        ContextNotification::ProjectRemoved(_) => "Project Removed"@,
        ContextNotification::ProjectDescriptions(descriptions) => {
            if descriptions@.len() == 0 {
                "No projects loaded"@
            } else {
                let total = descriptions@.len();
                let indexing = count_indexing(descriptions@);
                let ready = (total - indexing) as nat;
                let base = "Projects: "@ + dec_digits(total) + " total, Ready: "@ + dec_digits(
                    ready,
                );
                if indexing > 0 {
                    base + ", Indexing: "@ + dec_digits(indexing)
                } else {
                    base
                }
            }
        },
    }
}

/// The displayed percentage of a count pair, in executable form.
fn pct_of_counts(c: u32, t: u32) -> (r: u32)
    ensures
        r == pct_value(c as int, t as int),
{
    if t == 0 {
        if c == 0 {
            0
        } else {
            u32::MAX
        }
    } else {
        let wide: u64 = (c as u64) * 100 / (t as u64);
        if wide > u32::MAX as u64 {
            u32::MAX
        } else {
            wide as u32
        }
    }
}

impl ContextNotification {
    /// The routing path of this notification.
    pub fn notification_path(&self) -> (r: String)
        ensures
            r@ == spec_notification_path(*self),
    {
        match self {
            ContextNotification::Lsp(LspNotification::Indexing { project, .. }) => project.clone(),
            ContextNotification::Mcp(McpNotification::Request { project, .. }) => project.clone(),
            ContextNotification::Mcp(McpNotification::Response { project, .. }) => project.clone(),
            ContextNotification::ProjectAdded(project) => project.clone(),
            ContextNotification::ProjectRemoved(project) => project.clone(),
            ContextNotification::ProjectDescriptions(_) => chars_to_string(
                &str_to_chars("project_descriptions"),
            ),
        }
    }

    /// The human-readable description of this notification.
    pub fn description(&self) -> (r: String)
        ensures
            r@ == spec_description(*self),
    {
        match self {
            ContextNotification::Lsp(LspNotification::Indexing { is_indexing, progress, .. }) => {
                if *is_indexing {
                    match progress {
                        Some(p) => {
                            let mut out: String = String::new();
                            match &p.stage {
                                IndexingStage::Building => {
                                    out.append("[build]");
                                    out.append(" ");
                                    out.append("Building");
                                },
                                IndexingStage::CachePriming => {
                                    out.append("[cache]");
                                    out.append(" ");
                                    out.append("Cache Priming");
                                },
                                IndexingStage::Indexing => {
                                    out.append("[index]");
                                    out.append(" ");
                                    out.append("Indexing");
                                },
                                IndexingStage::Unknown(t) => {
                                    out.append("[stage]");
                                    out.append(" ");
                                    out.append(t.as_str());
                                },
                            }
                            proof {
                                assert(out@ =~= stage_icon(stage_view(p.stage)) + " "@
                                    + stage_name(stage_view(p.stage)));
                            }
                            match (&p.current_count, &p.total_count) {
                                (Some(c), Some(t)) => {
                                    let pct = pct_of_counts(*c, *t);
                                    out.append(" [");
                                    let cs = crate::text::u32_to_string(*c);
                                    out.append(cs.as_str());
                                    out.append("/");
                                    let ts = crate::text::u32_to_string(*t);
                                    out.append(ts.as_str());
                                    out.append("] ");
                                    let ps = crate::text::u32_to_string(pct);
                                    out.append(ps.as_str());
                                    out.append("%");
                                },
                                _ => {
                                    match &p.percentage {
                                        Some(pc) => {
                                            out.append(" ");
                                            let ps = crate::text::u32_to_string(*pc);
                                            out.append(ps.as_str());
                                            out.append("%");
                                        },
                                        None => {},
                                    }
                                },
                            }
                            match &p.current_crate {
                                Some(name) => {
                                    out.append(" crate ");
                                    out.append(name.as_str());
                                },
                                None => {},
                            }
                            proof {
                                assert(out@ =~= spec_description(*self));
                            }
                            out
                        },
                        None => chars_to_string(&str_to_chars("LSP Indexing: Started")),
                    }
                } else {
                    chars_to_string(&str_to_chars("LSP Indexing: Finished"))
                }
            },
            ContextNotification::Mcp(McpNotification::Request { content, .. }) => {
                let mut out: String = chars_to_string(&str_to_chars("MCP Request: "));
                out.append(content.as_str());
                out
            },
            ContextNotification::Mcp(McpNotification::Response { content, .. }) => {
                let mut out: String = chars_to_string(&str_to_chars("MCP Response: "));
                out.append(content.as_str());
                out
            },
            ContextNotification::ProjectAdded(_) => chars_to_string(&str_to_chars("Project Added")),
            ContextNotification::ProjectRemoved(_) => chars_to_string(
                &str_to_chars("Project Removed"),
            ),
            ContextNotification::ProjectDescriptions(descriptions) => {
                if descriptions.len() == 0 {
                    chars_to_string(&str_to_chars("No projects loaded"))
                } else {
                    let total: usize = descriptions.len();
                    let indexing: usize = count_indexing_in(descriptions);
                    let ready: usize = total - indexing;
                    let mut out: String = chars_to_string(&str_to_chars("Projects: "));
                    let totals = usize_to_string(total);
                    out.append(totals.as_str());
                    out.append(" total, Ready: ");
                    let readys = usize_to_string(ready);
                    out.append(readys.as_str());
                    if indexing > 0 {
                        out.append(", Indexing: ");
                        let idxs = usize_to_string(indexing);
                        out.append(idxs.as_str());
                    }
                    proof {
                        assert(out@ =~= spec_description(*self));
                    }
                    out
                }
            },
        }
    }
}

/// How many of the described projects are indexing.
fn count_indexing_in(descs: &Vec<ProjectDescription>) -> (r: usize)
    ensures
        r == count_indexing(descs@),
        r <= descs@.len(),
{
    let n: usize = descs.len();
    let mut cnt: usize = 0;
    let mut i: usize = 0;
    while i < n
        invariant
            i <= n,
            n == descs@.len(),
            cnt == count_indexing(descs@.take(i as int)),
            cnt <= i,
        decreases n - i,
    {
        proof {
            assert(descs@.take(i + 1).drop_last() =~= descs@.take(i as int));
            assert(descs@.take(i + 1).last() == descs@[i as int]);
        }
        if descs[i].is_indexing_lsp {
            cnt = cnt + 1;
        }
        i = i + 1;
    }
    proof {
        assert(descs@.take(n as int) =~= descs@);
    }
    cnt
}

/// The bus's side effect before forwarding an indexing update: the advisory
/// flag of the named project is set to the update's state; every other
/// notification leaves the registry as it is. Reports whether a flag was
/// set.
pub fn apply_to_registry(reg: &mut ProjectRegistry, n: &ContextNotification) -> (updated: bool)
    requires
        old(reg).wf(),
    ensures
        final(reg).wf(),
        final(reg).root_views() == old(reg).root_views(),
        match n {
            ContextNotification::Lsp(LspNotification::Indexing { project, is_indexing, .. }) => {
                &&& updated == old(reg).projects().contains_key(project@)
                &&& (if updated {
                    final(reg).projects() == old(reg).projects().insert(
                        project@,
                        ProjectEntry {
                            project: old(reg).projects()[project@].project,
                            is_indexing_lsp: *is_indexing,
                        },
                    )
                } else {
                    final(reg).projects() == old(reg).projects()
                })
            },
            _ => !updated && final(reg).projects() == old(reg).projects(),
        },
{
    match n {
        ContextNotification::Lsp(LspNotification::Indexing { project, is_indexing, .. }) => {
            reg.set_indexing(project, *is_indexing)
        },
        _ => false,
    }
}

} // verus!
