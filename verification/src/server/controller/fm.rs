//! Handlers for the forward manager.

use crate::dal::rule::Error;
use crate::data::generic::CompactUuid;
use crate::data::rule::{RuleStats, RuleStatsView};
use crate::forward::cache::{spec_entry_views, spec_lists};
use crate::forward::manager::{spec_rule_disabled, spec_rule_not_found, ManagerView};
use crate::forward::task::spec_has_task;
use crate::model::rule::Rule;
use crate::server::controller::rule::spec_done;
use crate::server::response::{BaseResponse, BAD_REQUEST};
use crate::server::AppState;
use vstd::prelude::*;
use vstd::string::StringExecFns;

verus! {

/// Lists the supervised rules as they are stored now.
pub fn get_running_rules(state: &AppState) -> (response: BaseResponse<Vec<Rule>>)
    ensures
        response matches BaseResponse::Success(rules) && rules@.map_values(|rule: Rule| rule@)
            == state.fm@.supervised_rules(),
{
    BaseResponse::success(state.fm.get_rules())
}

/// Stops a rule and starts it again. A rule without a task, one that is
/// no longer stored and one that is not enabled are answered with status
/// 400.
pub fn restart_rule(state: &mut AppState, id: CompactUuid) -> (response: BaseResponse<&'static str>)
    ensures
        final(state).fm@ == old(state).fm@.restarted(id@),
        final(state).cli == old(state).cli,
        match response {
            BaseResponse::Success(text) => text@ == spec_done() && spec_has_task(
                old(state).fm@.tasks,
                id@,
            ) && old(state).fm@.stopped(id@).can_start(id@),
            BaseResponse::Error { code, message } => code == BAD_REQUEST && !(spec_has_task(
                old(state).fm@.tasks,
                id@,
            ) && old(state).fm@.stopped(id@).can_start(id@)) && (message@
                == spec_rule_not_found().message() || message@ == spec_rule_disabled().message()),
        },
{
    match state.fm.restart_rule(id) {
        Ok(_) => BaseResponse::success("ok"),
        Err(error) => BaseResponse::from_error(&error),
    }
}

/// Lists the live counters of the supervised rules.
pub fn get_stats(state: &AppState) -> (response: BaseResponse<Vec<(CompactUuid, RuleStats)>>)
    ensures
        response matches BaseResponse::Success(entries) && spec_lists(
            spec_entry_views(entries@),
            state.fm@.supervised_stats(),
        ),
{
    BaseResponse::success(state.fm.get_stats())
}

/// Sets the live counters of the supervised rules to zero.
pub fn reset_stats(state: &mut AppState) -> (response: BaseResponse<&'static str>)
    ensures
        response matches BaseResponse::Success(text) && text@ == spec_done(),
        final(state).fm@ == (ManagerView { stats: final(state).fm@.stats, ..old(state).fm@ }),
        final(state).cli == old(state).cli,
        old(state).fm.stats_settled() ==> final(state).fm@.stats == old(
            state,
        ).fm@.reset_supervised_stats(),
{
    state.fm.reset_stats();
    BaseResponse::success("ok")
}

/// Fetches the live counters of one rule; a rule without any is
/// answered with status 400 and `rule not found`.
pub fn get_stat(state: &mut AppState, id: CompactUuid) -> (response: BaseResponse<RuleStats>)
    ensures
        match response {
            BaseResponse::Success(stats) => old(state).fm@.stats.contains_key(id@) && old(
                state,
            ).fm@.stats[id@] == stats@,
            BaseResponse::Error { code, message } => !old(state).fm@.stats.contains_key(id@)
                && code == BAD_REQUEST && message@ == "rule not found"@,
        },
        final(state).fm@ == (ManagerView { stats: final(state).fm@.stats, ..old(state).fm@ }),
        final(state).cli == old(state).cli,
        old(state).fm.stats_settled() ==> final(state).fm@ == old(state).fm@,
{
    match state.fm.get_stat(id) {
        Some(stats) => BaseResponse::success(stats),
        None => BaseResponse::error(BAD_REQUEST, String::from_str("rule not found")),
    }
}

/// Sets the live counters of one rule to zero; a rule without any is
/// answered with status 400.
pub fn reset_stat(state: &mut AppState, id: CompactUuid) -> (response: BaseResponse<&'static str>)
    ensures
        match response {
            BaseResponse::Success(text) => old(state).fm@.stats.contains_key(id@) && text@
                == spec_done(),
            BaseResponse::Error { code, message } => !old(state).fm@.stats.contains_key(id@)
                && code == BAD_REQUEST && message@ == spec_rule_not_found().message(),
        },
        final(state).fm@ == (ManagerView { stats: final(state).fm@.stats, ..old(state).fm@ }),
        final(state).cli == old(state).cli,
        old(state).fm.stats_settled() ==> final(state).fm@.stats == if old(
            state,
        ).fm@.stats.contains_key(id@) {
            old(state).fm@.stats.insert(id@, RuleStatsView::zero())
        } else {
            old(state).fm@.stats
        },
{
    match state.fm.reset_stat(id) {
        Ok(_) => BaseResponse::success("ok"),
        Err(error) => BaseResponse::from_error(&error),
    }
}

} // verus!
