//! Composition of user-visible notifications.
//!
//! A pure formatting step: each function builds the exact message text
//! and urgency for one outcome. Routine sync summaries are low-urgency
//! and auto-dismiss; desync and source-deletion warnings are critical
//! and persist until dismissed. The surrounding process only delivers
//! what is composed here.

use vstd::prelude::*;
use vstd::string::StringExecFns;

use crate::numfmt::{spec_decimal, usize_to_string};

verus! {

/// How insistently a notice is shown.
#[derive(Clone, Copy, PartialEq, Eq, Structural, Debug)]
pub enum Urgency {
    /// Routine: may be dismissed automatically.
    Normal,
    /// Data-risk: persists until the user dismisses it.
    Critical,
}

/// One message for the user.
#[derive(Debug)]
pub struct Notice {
    pub summary: String,
    pub body: String,
    pub urgency: Urgency,
    /// Milliseconds after which the notice may auto-dismiss; 0 means
    /// it persists.
    pub auto_dismiss_millis: u32,
}

/// The summary text of a sync notice: the program name and the source
/// file's name.
pub open spec fn spec_sync_summary(source_name: Seq<char>) -> Seq<char> {
    "mdman: "@ + source_name
}

/// The body of a sync summary: how many files were synced, and how
/// many were left out as desynced.
pub open spec fn spec_sync_message(synced: nat, desynced: nat) -> Seq<char> {
    let s_part = if synced == 1 {
        spec_decimal(synced) + " file has been synced"@
    } else if synced > 1 {
        spec_decimal(synced) + " files have been synced"@
    } else {
        Seq::<char>::empty()
    };
    let d_part = if desynced == 0 {
        Seq::<char>::empty()
    } else {
        (if s_part.len() > 0 {
            ", "@
        } else {
            Seq::<char>::empty()
        }) + spec_decimal(desynced) + (if desynced == 1 {
            " desynced file left out"@
        } else {
            " desynced files left out"@
        })
    };
    s_part + d_part
}

/// Composes the per-source summary after a propagation: how many
/// destinations were synced and how many were left out. `None` when
/// there is nothing to report.
pub fn sync_notice(source_name: &String, synced: usize, desynced: usize) -> (r: Option<Notice>)
    ensures
        match r {
            None => synced == 0 && desynced == 0,
            Some(n) => {
                &&& (synced > 0 || desynced > 0)
                &&& n.summary@ == spec_sync_summary(source_name@)
                &&& n.body@ == spec_sync_message(synced as nat, desynced as nat)
                &&& n.urgency == Urgency::Normal
                &&& n.auto_dismiss_millis == 3000
            },
        },
{
    if synced == 0 && desynced == 0 {
        return None;
    }
    let mut body = String::new();
    if synced == 1 {
        body.append(usize_to_string(synced).as_str());
        body.append(" file has been synced");
    } else if synced > 1 {
        body.append(usize_to_string(synced).as_str());
        body.append(" files have been synced");
    }
    if desynced > 0 {
        if synced > 0 {
            body.append(", ");
        }
        body.append(usize_to_string(desynced).as_str());
        if desynced == 1 {
            body.append(" desynced file left out");
        } else {
            body.append(" desynced files left out");
        }
    }
    proof {
        assert(body@ =~= spec_sync_message(synced as nat, desynced as nat));
    }
    let mut summary = String::new();
    summary.append("mdman: ");
    summary.append(source_name.as_str());
    Some(
        Notice {
            summary,
            body,
            urgency: Urgency::Normal,
            auto_dismiss_millis: 3000,
        },
    )
}

/// The body of a desync warning: which destination was edited
/// directly, and which source owns it.
pub open spec fn spec_desync_message(dest_name: Seq<char>, source_path: Seq<char>) -> Seq<char> {
    "Warning: "@ + dest_name + " was modified directly!\nSource: "@ + source_path
        + "\nUse 'mdman sync' to re-sync from source or 'mdman diff' to see differences"@
}

/// Composes the warning for a destination edited independently of its
/// source. Critical and persistent: a data-risk event is never silent.
pub fn desync_notice(dest_name: &String, source_path: &String) -> (r: Notice)
    ensures
        r.summary@ == "mdman: Desync detected!"@,
        r.body@ == spec_desync_message(dest_name@, source_path@),
        r.urgency == Urgency::Critical,
        r.auto_dismiss_millis == 0,
{
    let mut body = String::new();
    body.append("Warning: ");
    body.append(dest_name.as_str());
    body.append(" was modified directly!\nSource: ");
    body.append(source_path.as_str());
    body.append("\nUse 'mdman sync' to re-sync from source or 'mdman diff' to see differences");
    proof {
        assert(body@ =~= spec_desync_message(dest_name@, source_path@));
    }
    let mut summary = String::new();
    summary.append("mdman: Desync detected!");
    proof {
        assert(summary@ =~= "mdman: Desync detected!"@);
    }
    Notice { summary, body, urgency: Urgency::Critical, auto_dismiss_millis: 0 }
}

/// The listing of the remaining destinations, one line each, indented.
pub open spec fn spec_dest_lines(ds: Seq<Seq<char>>) -> Seq<char>
    decreases ds.len(),
{
    if ds.len() == 0 {
        Seq::<char>::empty()
    } else if ds.len() == 1 {
        "  - "@ + ds[0]
    } else {
        spec_dest_lines(ds.drop_last()) + "\n"@ + "  - "@ + ds.last()
    }
}

/// The body of a source-deletion warning: one form for a single
/// remaining destination, one for several.
pub open spec fn spec_source_deleted_body(name: Seq<char>, ds: Seq<Seq<char>>) -> Seq<char> {
    if ds.len() == 1 {
        "Source file "@ + name + " was deleted!\nDestination file remains at:\n"@ + ds[0]
    } else {
        "Source file "@ + name + " was deleted!\n"@ + spec_decimal(ds.len())
            + " destination files remain at:\n"@ + spec_dest_lines(ds)
    }
}

/// Composes the warning for a deleted source, naming every destination
/// that remains on disk. Critical and persistent.
pub fn source_deleted_notice(source_name: &String, destinations: &Vec<String>) -> (r: Notice)
    ensures
        r.summary@ == "mdman: Source file deleted!"@,
        r.body@ == spec_source_deleted_body(source_name@, destinations.deep_view()),
        r.urgency == Urgency::Critical,
        r.auto_dismiss_millis == 0,
{
    let ghost ds = destinations.deep_view();
    let mut body = String::new();
    if destinations.len() == 1 {
        body.append("Source file ");
        body.append(source_name.as_str());
        body.append(" was deleted!\nDestination file remains at:\n");
        body.append(destinations[0].as_str());
        proof {
            assert(destinations@[0]@ == ds[0]);
            assert(body@ =~= spec_source_deleted_body(source_name@, ds));
        }
    } else {
        body.append("Source file ");
        body.append(source_name.as_str());
        body.append(" was deleted!\n");
        body.append(usize_to_string(destinations.len()).as_str());
        body.append(" destination files remain at:\n");
        let ghost head = body@;
        let mut i: usize = 0;
        while i < destinations.len()
            invariant
                0 <= i <= ds.len(),
                ds.len() == destinations.len(),
                forall|k: int| 0 <= k < ds.len() ==> #[trigger] destinations@[k]@ == ds[k],
                body@ == head + spec_dest_lines(ds.take(i as int)),
            decreases ds.len() - i,
        {
            if i > 0 {
                body.append("\n");
            }
            body.append("  - ");
            body.append(destinations[i].as_str());
            proof {
                let prev = ds.take(i as int);
                let cur = ds.take(i as int + 1);
                assert(cur.drop_last() =~= prev);
                assert(cur.last() == ds[i as int]);
                if i == 0 {
                    assert(cur.len() == 1);
                    assert(cur[0] == ds[0]);
                    assert(body@ =~= head + ("  - "@ + ds[0]));
                } else {
                    assert(body@ =~= head + (spec_dest_lines(prev) + "\n"@ + "  - "@ + ds[
                        i as int
                    ]));
                }
            }
            i = i + 1;
        }
        proof {
            assert(ds.take(ds.len() as int) =~= ds);
            assert(body@ =~= spec_source_deleted_body(source_name@, ds));
        }
    }
    let mut summary = String::new();
    summary.append("mdman: Source file deleted!");
    proof {
        assert(summary@ =~= "mdman: Source file deleted!"@);
    }
    Notice { summary, body, urgency: Urgency::Critical, auto_dismiss_millis: 0 }
}

/// `needle` occurs in `hay` as one contiguous run.
pub open spec fn contains_sub(hay: Seq<char>, needle: Seq<char>) -> bool {
    exists|k: int|
        0 <= k && k + needle.len() <= hay.len() && (#[trigger] hay.subrange(k, k + needle.len()))
            == needle
}

proof fn lemma_contains_sub_prefix(a: Seq<char>, b: Seq<char>, n: Seq<char>)
    requires
        contains_sub(a, n),
    ensures
        contains_sub(a + b, n),
{
    let k = choose|k: int|
        0 <= k && k + n.len() <= a.len() && #[trigger] a.subrange(k, k + n.len()) == n;
    assert((a + b).subrange(k, k + n.len()) =~= a.subrange(k, k + n.len()));
}

proof fn lemma_contains_sub_suffix(a: Seq<char>, b: Seq<char>, n: Seq<char>)
    requires
        contains_sub(b, n),
    ensures
        contains_sub(a + b, n),
{
    let k = choose|k: int|
        0 <= k && k + n.len() <= b.len() && #[trigger] b.subrange(k, k + n.len()) == n;
    assert((a + b).subrange(a.len() + k, a.len() + k + n.len()) =~= b.subrange(k, k + n.len()));
}

proof fn lemma_contains_sub_self(s: Seq<char>)
    ensures
        contains_sub(s, s),
{
    assert(s.subrange(0, 0 + s.len() as int) =~= s);
    assert(0 + s.len() <= s.len() && (#[trigger] s.subrange(0, 0 + s.len() as int)) == s);
}

proof fn lemma_dest_lines_contain(ds: Seq<Seq<char>>, i: int)
    requires
        0 <= i < ds.len(),
    ensures
        contains_sub(spec_dest_lines(ds), ds[i]),
    decreases ds.len(),
{
    if ds.len() == 1 {
        lemma_contains_sub_self(ds[0]);
        lemma_contains_sub_suffix("  - "@, ds[0], ds[0]);
    } else if i == ds.len() - 1 {
        lemma_contains_sub_self(ds.last());
        lemma_contains_sub_suffix(
            spec_dest_lines(ds.drop_last()) + "\n"@ + "  - "@,
            ds.last(),
            ds.last(),
        );
    } else {
        lemma_dest_lines_contain(ds.drop_last(), i);
        assert(ds.drop_last()[i] == ds[i]);
        lemma_contains_sub_prefix(
            spec_dest_lines(ds.drop_last()),
            "\n"@ + "  - "@ + ds.last(),
            ds[i],
        );
        assert(spec_dest_lines(ds.drop_last()) + ("\n"@ + "  - "@ + ds.last()) =~= spec_dest_lines(
            ds,
        ));
    }
}

/// The source-deleted warning names every destination that remains:
/// each destination path stands verbatim in the composed body.
pub proof fn lemma_source_deleted_names_all(name: Seq<char>, ds: Seq<Seq<char>>, i: int)
    requires
        0 <= i < ds.len(),
    ensures
        contains_sub(spec_source_deleted_body(name, ds), ds[i]),
{
    if ds.len() == 1 {
        lemma_contains_sub_self(ds[0]);
        lemma_contains_sub_suffix(
            "Source file "@ + name + " was deleted!\nDestination file remains at:\n"@,
            ds[0],
            ds[0],
        );
    } else {
        lemma_dest_lines_contain(ds, i);
        lemma_contains_sub_suffix(
            "Source file "@ + name + " was deleted!\n"@ + spec_decimal(ds.len())
                + " destination files remain at:\n"@,
            spec_dest_lines(ds),
            ds[i],
        );
    }
}

} // verus!
