use vstd::prelude::*;
use crate::results::{AggView, AggregatedResult, DeployResults, DeployStatus, StatusKind, of_kind};
use crate::strutil::{spec_decimal, spec_join, usize_to_string, join_strings};

verus! {

// ---------------------------------------------------------------------------
// Checking written settings files
// ---------------------------------------------------------------------------

/// Whether a piece of text is well-formed JSON. What that takes to spell out
/// is the JSON grammar; the parser below is the authority.
pub uninterp spec fn json_well_formed(s: Seq<char>) -> bool;

/// Relies on serde_json::from_str::<serde_json::Value>: it accepts exactly
/// the well-formed JSON texts, a function of the text alone.
#[verifier::external_body]
fn json_is_valid(s: &str) -> (r: bool)
    ensures
        r == json_well_formed(s@),
{
    serde_json::from_str::<serde_json::Value>(s).is_ok()
}

/// The warning line a deploy pass appends when a settings file it touched is
/// not valid JSON; nothing when the content parses.
pub fn json_warning_line(path_display: &str, content: &str) -> (r: Option<String>)
    ensures
        r is Some <==> !json_well_formed(content@),
        r is Some ==> r->0@ == "  WARNING: "@ + path_display@ + " is not valid JSON"@,
{
    if json_is_valid(content) {
        None
    } else {
        let mut line = "  WARNING: ".to_owned();
        line.append(path_display);
        line.append(" is not valid JSON");
        Some(line)
    }
}

// ---------------------------------------------------------------------------
// The summary section of the deploy log
// ---------------------------------------------------------------------------

/// One skipped item's summary line.
pub open spec fn spec_skipped_line(r: AggView) -> Seq<char> {
    "    - "@ + r.name
}

pub open spec fn spec_skipped_lines(rs: Seq<AggView>) -> Seq<Seq<char>>
    decreases rs.len(),
{
    if rs.len() == 0 {
        Seq::empty()
    } else {
        spec_skipped_lines(rs.drop_last()).push(spec_skipped_line(rs.last()))
    }
}

/// One deployed item's summary lines: the item with its joined target labels,
/// then one indented line per recorded detail.
pub open spec fn spec_deployed_line(r: AggView) -> Seq<char> {
    "    + "@ + r.name + " -> "@ + spec_join(r.targets, ", "@)
}

pub open spec fn spec_detail_lines(details: Seq<Seq<char>>) -> Seq<Seq<char>>
    decreases details.len(),
{
    if details.len() == 0 {
        Seq::empty()
    } else {
        spec_detail_lines(details.drop_last()).push("        "@ + details.last())
    }
}

pub open spec fn spec_deployed_lines(rs: Seq<AggView>) -> Seq<Seq<char>>
    decreases rs.len(),
{
    if rs.len() == 0 {
        Seq::empty()
    } else {
        spec_deployed_lines(rs.drop_last()) + seq![spec_deployed_line(rs.last())]
            + spec_detail_lines(rs.last().details)
    }
}

/// One failed item's summary line; the reason rides along.
pub open spec fn spec_error_line(r: AggView) -> Seq<char> {
    "    ! "@ + r.name + " ("@ + (match r.status {
        crate::results::StatusView::Error(msg) => msg,
        _ => Seq::empty(),
    }) + ")"@
}

pub open spec fn spec_error_lines(rs: Seq<AggView>) -> Seq<Seq<char>>
    decreases rs.len(),
{
    if rs.len() == 0 {
        Seq::empty()
    } else {
        spec_error_lines(rs.drop_last()).push(spec_error_line(rs.last()))
    }
}

/// The whole summary block: skipped items first, deployed items with their
/// details, errors last, or a single placeholder line when nothing at all was
/// processed.
pub open spec fn spec_summary(rs: Seq<AggView>) -> Seq<Seq<char>> {
    let sk = of_kind(rs, StatusKind::SkippedKind);
    let dp = of_kind(rs, StatusKind::DeployedKind);
    let er = of_kind(rs, StatusKind::ErrorKind);
    let head = seq![Seq::<char>::empty(), "=== Summary ==="@];
    let sk_block: Seq<Seq<char>> = if sk.len() > 0 {
        seq![("  Skipped ("@ + spec_decimal(sk.len()) + "):"@)] + spec_skipped_lines(sk) + seq![
            Seq::<char>::empty(),
        ]
    } else {
        Seq::empty()
    };
    let dp_block: Seq<Seq<char>> = if dp.len() > 0 {
        seq![("  Deployed ("@ + spec_decimal(dp.len()) + "):"@)] + spec_deployed_lines(dp) + seq![
            Seq::<char>::empty(),
        ]
    } else {
        Seq::empty()
    };
    let er_block: Seq<Seq<char>> = if er.len() > 0 {
        seq![("  Errors ("@ + spec_decimal(er.len()) + "):"@)] + spec_error_lines(er) + seq![
            Seq::<char>::empty(),
        ]
    } else {
        Seq::empty()
    };
    let none_block: Seq<Seq<char>> = if sk.len() == 0 && dp.len() == 0 && er.len() == 0 {
        seq!["  (no items processed)"@, Seq::<char>::empty()]
    } else {
        Seq::empty()
    };
    head + sk_block + dp_block + er_block + none_block
}

/// Append the structured summary of a deploy session to the log: skipped
/// items, then deployed items with their detail lines and joined target
/// labels, then errors with their reasons.
#[verifier::rlimit(60)]
pub fn append_summary(results: &DeployResults, output: &mut Vec<String>)
    ensures
        final(output).deep_view() == old(output).deep_view() + spec_summary(results@),
{
    let ghost base = output.deep_view();
    let ghost skv = of_kind(results@, StatusKind::SkippedKind);
    let ghost dpv = of_kind(results@, StatusKind::DeployedKind);
    let ghost erv = of_kind(results@, StatusKind::ErrorKind);
    let ghost head = seq![Seq::<char>::empty(), "=== Summary ==="@];
    let ghost sk_block: Seq<Seq<char>> = if skv.len() > 0 {
        seq![("  Skipped ("@ + spec_decimal(skv.len()) + "):"@)] + spec_skipped_lines(skv) + seq![
            Seq::<char>::empty(),
        ]
    } else {
        Seq::empty()
    };
    let ghost dp_block: Seq<Seq<char>> = if dpv.len() > 0 {
        seq![("  Deployed ("@ + spec_decimal(dpv.len()) + "):"@)] + spec_deployed_lines(dpv)
            + seq![Seq::<char>::empty()]
    } else {
        Seq::empty()
    };
    let ghost er_block: Seq<Seq<char>> = if erv.len() > 0 {
        seq![("  Errors ("@ + spec_decimal(erv.len()) + "):"@)] + spec_error_lines(erv) + seq![
            Seq::<char>::empty(),
        ]
    } else {
        Seq::empty()
    };
    let skipped = results.skipped();
    let deployed = results.deployed();
    let errors = results.errors();

    output.push(String::new());
    output.push("=== Summary ===".to_owned());
    proof {
        assert(output.deep_view() =~= base + head);
    }

    if skipped.len() > 0 {
        let mut hdr = "  Skipped (".to_owned();
        hdr.append(usize_to_string(skipped.len()).as_str());
        hdr.append("):");
        output.push(hdr);
        let ghost sk = skv;
        let ghost mark = output.deep_view();
        proof {
            assert(mark =~= base + head + seq![("  Skipped ("@ + spec_decimal(skv.len())
                + "):"@)]);
        }
        let n = skipped.len();
        let mut i: usize = 0;
        while i < n
            invariant
                n == skipped@.len(),
                sk == of_kind(results@, StatusKind::SkippedKind),
                n == sk.len(),
                forall|j: int| 0 <= j < n ==> (#[trigger] skipped@[j])@ == sk[j],
                i <= n,
                output.deep_view() =~= mark + spec_skipped_lines(sk.take(i as int)),
            decreases n - i,
        {
            proof {
                assert(sk.take(i + 1).drop_last() =~= sk.take(i as int));
                assert(sk.take(i + 1).last() == sk[i as int]);
            }
            let mut line = "    - ".to_owned();
            line.append(skipped[i].name.as_str());
            proof {
                assert(line@ == spec_skipped_line(sk[i as int]));
            }
            let ghost prevout = output.deep_view();
            output.push(line);
            proof {
                assert(output.deep_view() =~= prevout.push(spec_skipped_line(sk[i as int])));
                assert(output.deep_view() =~= mark + spec_skipped_lines(sk.take(i + 1)));
            }
            i = i + 1;
        }
        proof {
            assert(sk.take(n as int) =~= sk);
        }
        let ghost prevout = output.deep_view();
        output.push(String::new());
        proof {
            assert(output.deep_view() =~= prevout.push(Seq::<char>::empty()));
        }
    }
    proof {
        assert(output.deep_view() =~= base + head + sk_block);
    }

    if deployed.len() > 0 {
        let mut hdr = "  Deployed (".to_owned();
        hdr.append(usize_to_string(deployed.len()).as_str());
        hdr.append("):");
        output.push(hdr);
        let ghost dp = dpv;
        let ghost mark = output.deep_view();
        proof {
            assert(mark =~= base + head + sk_block + seq![("  Deployed ("@ + spec_decimal(
                dpv.len(),
            ) + "):"@)]);
        }
        let n = deployed.len();
        let mut i: usize = 0;
        while i < n
            invariant
                n == deployed@.len(),
                dp == of_kind(results@, StatusKind::DeployedKind),
                n == dp.len(),
                forall|j: int| 0 <= j < n ==> (#[trigger] deployed@[j])@ == dp[j],
                i <= n,
                output.deep_view() =~= mark + spec_deployed_lines(dp.take(i as int)),
            decreases n - i,
        {
            proof {
                assert(dp.take(i + 1).drop_last() =~= dp.take(i as int));
                assert(dp.take(i + 1).last() == dp[i as int]);
            }
            let mut line = "    + ".to_owned();
            line.append(deployed[i].name.as_str());
            line.append(" -> ");
            let targets = join_strings(&deployed[i].targets, ", ");
            line.append(targets.as_str());
            proof {
                assert(deployed@[i as int]@.targets == dp[i as int].targets);
                assert(line@ == spec_deployed_line(dp[i as int]));
            }
            let ghost prevout = output.deep_view();
            output.push(line);
            proof {
                assert(output.deep_view() =~= prevout.push(spec_deployed_line(dp[i as int])));
            }
            let ghost mark2 = output.deep_view();
            let dn = deployed[i].details.len();
            let ghost dv = dp[i as int].details;
            let mut k: usize = 0;
            while k < dn
                invariant
                    dn == deployed@[i as int].details@.len(),
                    0 <= i < deployed@.len(),
                    dv == deployed@[i as int]@.details,
                    dn == dv.len(),
                    k <= dn,
                    output.deep_view() =~= mark2 + spec_detail_lines(dv.take(k as int)),
                decreases dn - k,
            {
                proof {
                    assert(dv.take(k + 1).drop_last() =~= dv.take(k as int));
                    assert(dv.take(k + 1).last() == dv[k as int]);
                    assert(dv[k as int] == deployed@[i as int].details@[k as int]@);
                }
                let mut dline = "        ".to_owned();
                dline.append(deployed[i].details[k].as_str());
                proof {
                    assert(dline@ == "        "@ + dv[k as int]);
                }
                let ghost prevout = output.deep_view();
                output.push(dline);
                proof {
                    assert(output.deep_view() =~= prevout.push("        "@ + dv[k as int]));
                    assert(output.deep_view() =~= mark2 + spec_detail_lines(dv.take(k + 1)));
                }
                k = k + 1;
            }
            proof {
                assert(dv.take(dn as int) =~= dv);
                assert(output.deep_view() =~= mark + spec_deployed_lines(dp.take(i + 1)));
            }
            i = i + 1;
        }
        proof {
            assert(dp.take(n as int) =~= dp);
        }
        let ghost prevout = output.deep_view();
        output.push(String::new());
        proof {
            assert(output.deep_view() =~= prevout.push(Seq::<char>::empty()));
        }
    }
    proof {
        assert(output.deep_view() =~= base + head + sk_block + dp_block);
    }

    if errors.len() > 0 {
        let mut hdr = "  Errors (".to_owned();
        hdr.append(usize_to_string(errors.len()).as_str());
        hdr.append("):");
        output.push(hdr);
        let ghost er = erv;
        proof {
            assert forall|j: int| 0 <= j < er.len() implies (#[trigger] er[j]).status is Error by {
                crate::results::lemma_of_kind_status(results@, StatusKind::ErrorKind, j);
            }
        }
        let ghost mark = output.deep_view();
        let n = errors.len();
        let mut i: usize = 0;
        while i < n
            invariant
                n == errors@.len(),
                er == of_kind(results@, StatusKind::ErrorKind),
                n == er.len(),
                forall|j: int| 0 <= j < n ==> (#[trigger] errors@[j])@ == er[j],
                forall|j: int| 0 <= j < n ==> (#[trigger] er[j]).status is Error,
                i <= n,
                output.deep_view() =~= mark + spec_error_lines(er.take(i as int)),
            decreases n - i,
        {
            proof {
                assert(er.take(i + 1).drop_last() =~= er.take(i as int));
                assert(er.take(i + 1).last() == er[i as int]);
                crate::results::lemma_of_kind_status(results@, StatusKind::ErrorKind, i as int);
            }
            let mut line = "    ! ".to_owned();
            line.append(errors[i].name.as_str());
            line.append(" (");
            match &errors[i].status {
                DeployStatus::Error(msg) => {
                    line.append(msg.as_str());
                },
                _ => {},
            }
            line.append(")");
            proof {
                assert(errors@[i as int]@.status == er[i as int].status);
                assert(line@ == spec_error_line(er[i as int]));
            }
            let ghost prevout = output.deep_view();
            output.push(line);
            proof {
                assert(output.deep_view() =~= prevout.push(spec_error_line(er[i as int])));
                assert(output.deep_view() =~= mark + spec_error_lines(er.take(i + 1)));
            }
            i = i + 1;
        }
        proof {
            assert(er.take(n as int) =~= er);
        }
        let ghost prevout = output.deep_view();
        output.push(String::new());
        proof {
            assert(output.deep_view() =~= prevout.push(Seq::<char>::empty()));
        }
    }
    proof {
        assert(output.deep_view() =~= base + head + sk_block + dp_block + er_block);
    }

    if skipped.len() == 0 && deployed.len() == 0 && errors.len() == 0 {
        output.push("  (no items processed)".to_owned());
        output.push(String::new());
    }
    proof {
        assert(output.deep_view() =~= base + spec_summary(results@));
    }
}

} // verus!
