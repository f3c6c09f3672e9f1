use vstd::prelude::*;
use crate::modes::Category;
use crate::results::{AggView, DeployResults, DeployStatus, StatusView, spec_record};
use crate::strutil::{
    find_last_paren, last_paren, spec_trim, str_eq, str_starts_with, str_strip_prefix, str_trim,
    strip_rparens, trim_end_rparens,
};

verus! {

// ---------------------------------------------------------------------------
// The deploy log grammar, as a line-scanning machine
// ---------------------------------------------------------------------------

/// An item the scanner has read but not yet handed to the aggregator.
#[verifier::ext_equal]
pub struct PendingV {
    pub name: Seq<char>,
    pub category: Category,
    pub status: StatusView,
    pub details: Seq<Seq<char>>,
}

/// Scanner state after some lines: the current category header, the open
/// item, and every item already flushed, in order.
#[verifier::ext_equal]
pub struct ScanV {
    pub cat: Option<Category>,
    pub pending: Option<PendingV>,
    pub emitted: Seq<PendingV>,
}

/// Close the open item, if any.
pub open spec fn spec_flush_state(st: ScanV) -> Seq<PendingV> {
    match st.pending {
        Some(p) => st.emitted.push(p),
        None => st.emitted,
    }
}

/// The deploy log writes `hook ` before hook names; the scanner removes it.
pub open spec fn strip_hook(s: Seq<char>) -> Seq<char> {
    if "hook "@.is_prefix_of(s) {
        s.skip("hook "@.len() as int)
    } else {
        s
    }
}

/// A detail line under an item status line.
pub open spec fn is_detail_line(t: Seq<char>) -> bool {
    "OK:"@.is_prefix_of(t) || "Linked:"@.is_prefix_of(t) || "> ln"@.is_prefix_of(t)
}

/// Name part of a `Skipped:` line: everything before the last `'('`, trimmed;
/// the whole rest when there is no parenthesis.
pub open spec fn spec_skip_name(rest: Seq<char>) -> Seq<char> {
    if last_paren(rest) >= 0 {
        spec_trim(rest.take(last_paren(rest)))
    } else {
        rest
    }
}

/// Reason part of a `Skipped:` line: everything after the last `'('` with
/// trailing `')'` removed; `unknown` when there is no parenthesis.
pub open spec fn spec_skip_reason(rest: Seq<char>) -> Seq<char> {
    if last_paren(rest) >= 0 {
        strip_rparens(rest.skip(last_paren(rest) + 1))
    } else {
        "unknown"@
    }
}

/// One scanner step. A category header resets the category and flushes; a
/// status line flushes and opens a new item under the current category; a
/// detail line extends the open item; anything else is ignored.
pub open spec fn spec_step(st: ScanV, line: Seq<char>) -> ScanV {
    let t = spec_trim(line);
    if t == "=== Skills ==="@ {
        ScanV { cat: Some(Category::Skills), pending: None, emitted: spec_flush_state(st) }
    } else if t == "=== Hooks ==="@ {
        ScanV { cat: Some(Category::Hooks), pending: None, emitted: spec_flush_state(st) }
    } else if t == "=== MCP ==="@ {
        ScanV { cat: Some(Category::Mcp), pending: None, emitted: spec_flush_state(st) }
    } else if t == "=== Permissions ==="@ {
        ScanV { cat: Some(Category::Permissions), pending: None, emitted: spec_flush_state(st) }
    } else if st.cat is Some {
        let cat = st.cat->0;
        if "Deployed: "@.is_prefix_of(t) {
            let name = strip_hook(t.skip("Deployed: "@.len() as int));
            ScanV {
                cat: st.cat,
                pending: Some(
                    PendingV {
                        name: name,
                        category: cat,
                        status: StatusView::Deployed,
                        details: Seq::empty(),
                    },
                ),
                emitted: spec_flush_state(st),
            }
        } else if "Included: "@.is_prefix_of(t) {
            let name = t.skip("Included: "@.len() as int);
            ScanV {
                cat: st.cat,
                pending: Some(
                    PendingV {
                        name: name,
                        category: cat,
                        status: StatusView::Deployed,
                        details: Seq::empty(),
                    },
                ),
                emitted: spec_flush_state(st),
            }
        } else if "Skipped: "@.is_prefix_of(t) {
            let rest = strip_hook(t.skip("Skipped: "@.len() as int));
            ScanV {
                cat: st.cat,
                pending: Some(
                    PendingV {
                        name: spec_skip_name(rest),
                        category: cat,
                        status: StatusView::Skipped(spec_skip_reason(rest)),
                        details: Seq::empty(),
                    },
                ),
                emitted: spec_flush_state(st),
            }
        } else if is_detail_line(t) {
            match st.pending {
                Some(p) => ScanV {
                    cat: st.cat,
                    pending: Some(
                        PendingV {
                            name: p.name,
                            category: p.category,
                            status: p.status,
                            details: p.details.push(t),
                        },
                    ),
                    emitted: st.emitted,
                },
                None => st,
            }
        } else {
            st
        }
    } else {
        st
    }
}

/// Scanner state after all of `lines`.
pub open spec fn spec_scan(lines: Seq<Seq<char>>) -> ScanV
    decreases lines.len(),
{
    if lines.len() == 0 {
        ScanV { cat: None, pending: None, emitted: Seq::empty() }
    } else {
        spec_step(spec_scan(lines.drop_last()), lines.last())
    }
}

/// Every item the log yields, in order: the flushed items plus the one still
/// open at end of input.
pub open spec fn spec_parse(lines: Seq<Seq<char>>) -> Seq<PendingV> {
    spec_flush_state(spec_scan(lines))
}

/// The aggregator after recording all of `items` under one target label.
pub open spec fn record_items(rs: Seq<AggView>, items: Seq<PendingV>, target: Seq<char>) -> Seq<
    AggView,
>
    decreases items.len(),
{
    if items.len() == 0 {
        rs
    } else {
        let p = items.last();
        spec_record(
            record_items(rs, items.drop_last(), target),
            p.name,
            p.category,
            p.status,
            target,
            p.details,
        )
    }
}

// ---------------------------------------------------------------------------
// The executable parser
// ---------------------------------------------------------------------------

/// The open item while scanning.
struct Pending {
    name: String,
    category: Category,
    status: DeployStatus,
    details: Vec<String>,
}

impl View for Pending {
    type V = PendingV;

    closed spec fn view(&self) -> PendingV {
        PendingV {
            name: self.name@,
            category: self.category,
            status: self.status@,
            details: self.details.deep_view(),
        }
    }
}

spec fn opt_pending_view(p: Option<Pending>) -> Option<PendingV> {
    match p {
        Some(x) => Some(x@),
        None => None,
    }
}

/// Hand the open item, if any, to the aggregator.
fn flush_item(p: Option<Pending>, results: &mut DeployResults, target: &str)
    ensures
        final(results)@ == (match p {
            Some(x) => spec_record(
                old(results)@,
                x@.name,
                x@.category,
                x@.status,
                target@,
                x@.details,
            ),
            None => old(results)@,
        }),
{
    match p {
        Some(x) => {
            let Pending { name, category, status, details } = x;
            results.record(name.as_str(), category, status, target, details);
        },
        None => {},
    }
}

/// Split the rest of a `Skipped:` line into item name and reason.
fn split_skip_line(rest: &str) -> (r: (String, String))
    ensures
        r.0@ == spec_skip_name(rest@),
        r.1@ == spec_skip_reason(rest@),
{
    let len = rest.unicode_len();
    match find_last_paren(rest) {
        Some(p) => {
            let name_part = rest.substring_char(0, p);
            proof {
                assert(name_part@ =~= rest@.take(p as int));
            }
            let name = str_trim(name_part).to_owned();
            let after = rest.substring_char(p + 1, len);
            proof {
                assert(after@ =~= rest@.skip(p + 1));
            }
            let reason = trim_end_rparens(after);
            (name, reason)
        },
        None => (rest.to_owned(), "unknown".to_owned()),
    }
}

/// Decode one deploy pass's line-oriented output and record every item it
/// reports into the aggregator under the given target label. Category
/// headers set context; `Deployed:` / `Included:` / `Skipped:` lines open an
/// item; indented `OK:` / `Linked:` / `> ln` lines attach to the open item;
/// every other line is ignored.
pub fn parse_deploy_results(lines: &Vec<String>, target_label: &str, results: &mut DeployResults)
    ensures
        final(results)@ == record_items(
            old(results)@,
            spec_parse(lines.deep_view()),
            target_label@,
        ),
{
    let ghost rs0 = results@;
    let mut cur_cat: Option<Category> = None;
    let mut pending: Option<Pending> = None;
    let n = lines.len();
    let mut i: usize = 0;
    while i < n
        invariant
            n == lines.len(),
            i <= n,
            cur_cat == spec_scan(lines.deep_view().take(i as int)).cat,
            opt_pending_view(pending) == spec_scan(lines.deep_view().take(i as int)).pending,
            results@ == record_items(
                rs0,
                spec_scan(lines.deep_view().take(i as int)).emitted,
                target_label@,
            ),
        decreases n - i,
    {
        let ghost st = spec_scan(lines.deep_view().take(i as int));
        let ghost stn = spec_scan(lines.deep_view().take(i + 1));
        proof {
            assert(lines.deep_view().take(i + 1).drop_last() =~= lines.deep_view().take(i as int));
            assert(lines.deep_view().take(i + 1).last() == lines.deep_view()[i as int]);
            assert(lines.deep_view()[i as int] == lines[i as int]@);
            assert(stn == spec_step(st, lines[i as int]@));
        }
        let trimmed = str_trim(lines[i].as_str());
        if str_eq(trimmed, "=== Skills ===") {
            let taken = pending;
            proof {
                lemma_record_items_push(rs0, st.emitted, opt_pending_view(taken), target_label@);
            }
            flush_item(taken, results, target_label);
            pending = None;
            cur_cat = Some(Category::Skills);
        } else if str_eq(trimmed, "=== Hooks ===") {
            let taken = pending;
            proof {
                lemma_record_items_push(rs0, st.emitted, opt_pending_view(taken), target_label@);
            }
            flush_item(taken, results, target_label);
            pending = None;
            cur_cat = Some(Category::Hooks);
        } else if str_eq(trimmed, "=== MCP ===") {
            let taken = pending;
            proof {
                lemma_record_items_push(rs0, st.emitted, opt_pending_view(taken), target_label@);
            }
            flush_item(taken, results, target_label);
            pending = None;
            cur_cat = Some(Category::Mcp);
        } else if str_eq(trimmed, "=== Permissions ===") {
            let taken = pending;
            proof {
                lemma_record_items_push(rs0, st.emitted, opt_pending_view(taken), target_label@);
            }
            flush_item(taken, results, target_label);
            pending = None;
            cur_cat = Some(Category::Permissions);
        } else {
            match cur_cat {
                Some(cat) => {
                    if let Some(after) = str_strip_prefix(trimmed, "Deployed: ") {
                        let taken = pending;
                        proof {
                            lemma_record_items_push(
                                rs0,
                                st.emitted,
                                opt_pending_view(taken),
                                target_label@,
                            );
                        }
                        flush_item(taken, results, target_label);
                        let name = match str_strip_prefix(after, "hook ") {
                            Some(h) => h,
                            None => after,
                        };
                        let entry = Pending {
                            name: name.to_owned(),
                            category: cat,
                            status: DeployStatus::Deployed,
                            details: Vec::new(),
                        };
                        proof {
                            assert(entry@.details =~= Seq::<Seq<char>>::empty());
                        }
                        pending = Some(entry);
                    } else if let Some(after) = str_strip_prefix(trimmed, "Included: ") {
                        let taken = pending;
                        proof {
                            lemma_record_items_push(
                                rs0,
                                st.emitted,
                                opt_pending_view(taken),
                                target_label@,
                            );
                        }
                        flush_item(taken, results, target_label);
                        let entry = Pending {
                            name: after.to_owned(),
                            category: cat,
                            status: DeployStatus::Deployed,
                            details: Vec::new(),
                        };
                        proof {
                            assert(entry@.details =~= Seq::<Seq<char>>::empty());
                        }
                        pending = Some(entry);
                    } else if let Some(after) = str_strip_prefix(trimmed, "Skipped: ") {
                        let taken = pending;
                        proof {
                            lemma_record_items_push(
                                rs0,
                                st.emitted,
                                opt_pending_view(taken),
                                target_label@,
                            );
                        }
                        flush_item(taken, results, target_label);
                        let rest = match str_strip_prefix(after, "hook ") {
                            Some(h) => h,
                            None => after,
                        };
                        let (name, reason) = split_skip_line(rest);
                        let entry = Pending {
                            name: name,
                            category: cat,
                            status: DeployStatus::Skipped(reason),
                            details: Vec::new(),
                        };
                        proof {
                            assert(entry@.details =~= Seq::<Seq<char>>::empty());
                        }
                        pending = Some(entry);
                    } else if str_starts_with(trimmed, "OK:") || str_starts_with(trimmed, "Linked:")
                        || str_starts_with(trimmed, "> ln") {
                        let taken = pending;
                        match taken {
                            Some(mut open_item) => {
                                let ghost before = open_item@;
                                open_item.details.push(trimmed.to_owned());
                                proof {
                                    assert(open_item.details.deep_view() =~= before.details.push(
                                        trimmed@,
                                    ));
                                    assert(open_item@ == stn.pending->0);
                                }
                                pending = Some(open_item);
                            },
                            None => {
                                pending = None;
                            },
                        }
                    }
                },
                None => {},
            }
        }
        i = i + 1;
    }
    proof {
        assert(lines.deep_view().take(n as int) =~= lines.deep_view());
    }
    let ghost st = spec_scan(lines.deep_view());
    let taken = pending;
    proof {
        lemma_record_items_push(rs0, st.emitted, opt_pending_view(taken), target_label@);
    }
    flush_item(taken, results, target_label);
}

/// Recording one more item is one more fold step.
proof fn lemma_record_items_push(
    rs: Seq<AggView>,
    items: Seq<PendingV>,
    p: Option<PendingV>,
    target: Seq<char>,
)
    ensures
        (match p {
            Some(x) => record_items(rs, items.push(x), target) == spec_record(
                record_items(rs, items, target),
                x.name,
                x.category,
                x.status,
                target,
                x.details,
            ),
            None => true,
        }),
{
    match p {
        Some(x) => {
            assert(items.push(x).drop_last() =~= items);
            assert(items.push(x).last() == x);
        },
        None => {},
    }
}

} // verus!
