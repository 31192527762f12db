//! Handlers for the stored rules.

use crate::dal::rule::{spec_not_found, CreateRuleParams, Error, UpdateRuleParams};
use crate::data::generic::CompactUuid;
use crate::model::rule::Rule;
use crate::server::response::{BaseResponse, BAD_REQUEST};
use crate::server::AppState;
use vstd::prelude::*;

verus! {

/// The answer to a request that only had to succeed.
pub open spec fn spec_done() -> Seq<char> {
    "ok"@
}

fn done() -> (text: &'static str)
    ensures
        text@ == spec_done(),
{
    "ok"
}

/// Lists the stored rules, in the order of the rule index.
pub fn get_rules(state: &AppState) -> (response: BaseResponse<Vec<Rule>>)
    ensures
        response matches BaseResponse::Success(rules) && rules@.map_values(|rule: Rule| rule@)
            == state.fm@.repository.rules,
{
    match state.fm.dal().rule.find_all() {
        Ok(rules) => BaseResponse::success(rules),
        Err(error) => BaseResponse::from_error(&error),
    }
}

/// Fetches one rule; a rule that is not stored is answered with no
/// payload.
pub fn get_rule_by_id(state: &AppState, id: CompactUuid) -> (response: BaseResponse<Option<Rule>>)
    ensures
        response matches BaseResponse::Success(found) && match found {
            Some(rule) => state.fm@.repository.rule(id@) == Some(rule@),
            None => state.fm@.repository.rule(id@) is None,
        },
{
    match state.fm.dal().rule.find_by_id(id) {
        Ok(found) => BaseResponse::success(found),
        Err(error) => BaseResponse::from_error(&error),
    }
}

/// Creates a rule under a new identifier and answers with it.
pub fn create_rule(state: &mut AppState, params: CreateRuleParams) -> (response: BaseResponse<Rule>)
    ensures
        response matches BaseResponse::Success(rule) && rule@ == params@.rule(rule@.id)
            && final(state).fm@.repository == old(state).fm@.repository.put(rule@)
            && rule@.id.len() == 16 && rule@.id[6] / 16 == 7 && rule@.id[8] / 64 == 2,
        final(state).fm@ == (crate::forward::manager::ManagerView {
            repository: final(state).fm@.repository,
            ..old(state).fm@
        }),
        final(state).cli == old(state).cli,
{
    match state.fm.dal_mut().rule.create(params) {
        Ok(rule) => BaseResponse::success(rule),
        Err(error) => BaseResponse::from_error(&error),
    }
}

/// Replaces the fields of a rule that the request names and answers
/// with the rule; a rule that is not stored is answered with status 400
/// and nothing changes.
pub fn update_rule(state: &mut AppState, id: CompactUuid, params: UpdateRuleParams) -> (response:
    BaseResponse<Rule>)
    ensures
        match old(state).fm@.repository.rule(id@) {
            Some(rule) => {
                &&& response matches BaseResponse::Success(patched) && patched@ == params@.apply(
                    rule,
                )
                &&& final(state).fm@.repository == old(state).fm@.repository.put(
                    params@.apply(rule),
                )
            },
            None => {
                &&& response matches BaseResponse::Error { code, message } && code == BAD_REQUEST
                    && message@ == spec_not_found(id@).message()
                &&& final(state).fm@.repository == old(state).fm@.repository
            },
        },
        final(state).fm@ == (crate::forward::manager::ManagerView {
            repository: final(state).fm@.repository,
            ..old(state).fm@
        }),
        final(state).cli == old(state).cli,
{
    match state.fm.dal_mut().rule.update(id, params) {
        Ok(rule) => BaseResponse::success(rule),
        Err(error) => BaseResponse::from_error(&error),
    }
}

/// Deletes a rule; the answer is the same whether it was stored or not.
pub fn delete_rule(state: &mut AppState, id: CompactUuid) -> (response: BaseResponse<&'static str>)
    ensures
        response matches BaseResponse::Success(text) && text@ == spec_done(),
        final(state).fm@.repository == old(state).fm@.repository.without(id@),
        final(state).fm@ == (crate::forward::manager::ManagerView {
            repository: final(state).fm@.repository,
            ..old(state).fm@
        }),
        final(state).cli == old(state).cli,
{
    match state.fm.dal_mut().rule.delete(id) {
        Ok(_) => BaseResponse::success(done()),
        Err(error) => BaseResponse::from_error(&error),
    }
}

/// Enables a rule and marks it as stopped; a rule that is not stored is
/// answered with status 400.
pub fn enable_rule(state: &mut AppState, id: CompactUuid) -> (response: BaseResponse<&'static str>)
    ensures
        spec_found_or_refused(response, old(state).fm@.repository.contains(id@), id@),
        final(state).fm@.repository == old(state).fm@.repository.with_enabled(id@, true),
        final(state).fm@ == (crate::forward::manager::ManagerView {
            repository: final(state).fm@.repository,
            ..old(state).fm@
        }),
        final(state).cli == old(state).cli,
{
    match state.fm.dal_mut().rule.enable(id) {
        Ok(_) => BaseResponse::success(done()),
        Err(error) => BaseResponse::from_error(&error),
    }
}

/// Disables a rule and marks it as stopped; a rule that is not stored
/// is answered with status 400.
pub fn disable_rule(state: &mut AppState, id: CompactUuid) -> (response: BaseResponse<&'static str>)
    ensures
        spec_found_or_refused(response, old(state).fm@.repository.contains(id@), id@),
        final(state).fm@.repository == old(state).fm@.repository.with_enabled(id@, false),
        final(state).fm@ == (crate::forward::manager::ManagerView {
            repository: final(state).fm@.repository,
            ..old(state).fm@
        }),
        final(state).cli == old(state).cli,
{
    match state.fm.dal_mut().rule.disable(id) {
        Ok(_) => BaseResponse::success(done()),
        Err(error) => BaseResponse::from_error(&error),
    }
}

/// Whether a response is `ok` for a rule that was found, and else the
/// refusal with status 400 that names the rule.
pub open spec fn spec_found_or_refused(
    response: BaseResponse<&'static str>,
    found: bool,
    id: Seq<u8>,
) -> bool {
    match response {
        BaseResponse::Success(text) => found && text@ == spec_done(),
        BaseResponse::Error { code, message } => !found && code == BAD_REQUEST && message@
            == spec_not_found(id).message(),
    }
}

} // verus!
