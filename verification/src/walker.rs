//! The ingest walker's plan for one directory level.

use vstd::prelude::*;

use crate::update::LocalEntry;

verus! {

/// What an ingest pass does with one directory entry. Folders directly
/// under the root are created as super folders, deeper ones as sub folders;
/// the walker then recurses into each with `is_super` false.
#[derive(Debug, PartialEq)]
pub enum PopulateAction {
    CreateFolder { name: String, is_super: bool },
    IngestFile { name: String },
}

/// The mathematical shape of a populate action.
pub enum PopulateActionView {
    CreateFolder { name: Seq<char>, is_super: bool },
    IngestFile { name: Seq<char> },
}

pub open spec fn populate_action_view(a: PopulateAction) -> PopulateActionView {
    match a {
        PopulateAction::CreateFolder { name, is_super } => PopulateActionView::CreateFolder {
            name: name@,
            is_super,
        },
        PopulateAction::IngestFile { name } => PopulateActionView::IngestFile { name: name@ },
    }
}

pub open spec fn populate_actions_view(s: Seq<PopulateAction>) -> Seq<PopulateActionView> {
    s.map_values(|a: PopulateAction| populate_action_view(a))
}

pub open spec fn spec_populate_action(e: LocalEntry, is_super: bool) -> PopulateActionView {
    if e.is_dir {
        PopulateActionView::CreateFolder { name: e.name@, is_super }
    } else {
        PopulateActionView::IngestFile { name: e.name@ }
    }
}

pub open spec fn spec_populate_plan(local: Seq<LocalEntry>, is_super: bool) -> Seq<
    PopulateActionView,
> {
    local.map_values(|e: LocalEntry| spec_populate_action(e, is_super))
}

/// Plan one level of an ingest pass over a directory listing: every
/// subdirectory becomes a remote folder record (super only directly under
/// the root) and is recursed into; every file is handed to file processing.
pub fn populate(entries: &Vec<LocalEntry>, is_super: bool) -> (plan: Vec<PopulateAction>)
    ensures
        populate_actions_view(plan@) == spec_populate_plan(entries@, is_super),
{
    let mut plan: Vec<PopulateAction> = Vec::new();
    let mut i: usize = 0;
    proof {
        assert(entries@.take(0) =~= Seq::<LocalEntry>::empty());
        assert(populate_actions_view(plan@) =~= spec_populate_plan(entries@.take(0), is_super));
    }
    while i < entries.len()
        invariant
            0 <= i <= entries.len(),
            populate_actions_view(plan@) == spec_populate_plan(entries@.take(i as int), is_super),
        decreases entries.len() - i,
    {
        let a = if entries[i].is_dir {
            PopulateAction::CreateFolder { name: entries[i].name.clone(), is_super }
        } else {
            PopulateAction::IngestFile { name: entries[i].name.clone() }
        };
        proof {
            assert(entries@.take(i as int + 1) =~= entries@.take(i as int).push(
                entries@[i as int],
            ));
            assert(populate_actions_view(plan@.push(a)) =~= populate_actions_view(plan@) + seq![
                populate_action_view(a),
            ]);
            assert(spec_populate_plan(entries@.take(i as int + 1), is_super)
                =~= spec_populate_plan(entries@.take(i as int), is_super) + seq![
                spec_populate_action(entries@[i as int], is_super),
            ]);
        }
        plan.push(a);
        i = i + 1;
    }
    proof {
        assert(entries@.take(entries@.len() as int) =~= entries@);
    }
    plan
}

} // verus!
