//! Decisions of the line-delimited JSON-RPC layer: which requests get an
//! answer, and which operation a method or tool name selects.
use vstd::prelude::*;
use vstd::string::*;
use crate::text::{same_text, starts_with_text};

verus! {

/// The protocol version assumed when a request names none.
pub fn default_jsonrpc() -> (r: String)
    ensures
        r@ == "2.0"@,
{
    String::from_str("2.0")
}

/// Whether a request is a notification, which gets no answer: it has no id,
/// or its method starts with `notifications/`.
pub open spec fn notification(has_id: bool, method: Seq<char>) -> bool {
    !has_id || ("notifications/"@.len() <= method.len() && method.subrange(0, "notifications/"@.len() as int)
        == "notifications/"@)
}

/// Whether a request is a notification.
pub fn is_notification(has_id: bool, method: &str) -> (r: bool)
    ensures
        r == notification(has_id, method@),
{
    !has_id || starts_with_text(method, "notifications/")
}

/// The protocol methods served.
#[derive(Debug, Clone, Copy, PartialEq, Eq, Structural)]
pub enum RpcMethod {
    Initialize,
    ListTools,
    CallTool,
}

/// The protocol method a name selects.
pub fn rpc_method(name: &str) -> (r: Option<RpcMethod>)
    ensures
        r == (if name@ == "initialize"@ {
            Some(RpcMethod::Initialize)
        } else if name@ == "tools/list"@ {
            Some(RpcMethod::ListTools)
        } else if name@ == "tools/call"@ {
            Some(RpcMethod::CallTool)
        } else {
            None
        }),
{
    if same_text(name, "initialize") {
        Some(RpcMethod::Initialize)
    } else if same_text(name, "tools/list") {
        Some(RpcMethod::ListTools)
    } else if same_text(name, "tools/call") {
        Some(RpcMethod::CallTool)
    } else {
        None
    }
}

/// The operations offered as tools.
#[derive(Debug, Clone, Copy, PartialEq, Eq, Structural)]
pub enum ToolName {
    ParseAndInsertRawJson,
    FetchAndSaveMultipleResults,
    ResultsAfterDate,
    ResultsBeforeDate,
    ResultsByDateRange,
    ResultsByYear,
    ResultsByMonth,
    LatestResults,
    LotteryByDate,
    SearchNumber,
    CompleteLotteryData,
    GenerateAndSaveReport,
    CreateDatabase,
}

/// The name under which a tool is offered.
pub open spec fn tool_label(t: ToolName) -> Seq<char> {
    match t {
        ToolName::ParseAndInsertRawJson => "parse_and_insert_raw_json"@,
        ToolName::FetchAndSaveMultipleResults => "fetch_and_save_multiple_results"@,
        ToolName::ResultsAfterDate => "get_lottery_results_after_date"@,
        ToolName::ResultsBeforeDate => "get_lottery_results_before_date"@,
        ToolName::ResultsByDateRange => "get_lottery_results_by_date_range"@,
        ToolName::ResultsByYear => "get_lottery_results_by_year"@,
        ToolName::ResultsByMonth => "get_lottery_results_by_month"@,
        ToolName::LatestResults => "get_latest_lottery_results"@,
        ToolName::LotteryByDate => "get_lottery_by_date"@,
        ToolName::SearchNumber => "search_number"@,
        ToolName::CompleteLotteryData => "get_complete_lottery_data"@,
        ToolName::GenerateAndSaveReport => "generate_and_save_report"@,
        ToolName::CreateDatabase => "create_database"@,
    }
}

/// The name under which a tool is offered.
pub fn tool_name_text(t: ToolName) -> (r: &'static str)
    ensures
        r@ == tool_label(t),
{
    match t {
        ToolName::ParseAndInsertRawJson => "parse_and_insert_raw_json",
        ToolName::FetchAndSaveMultipleResults => "fetch_and_save_multiple_results",
        ToolName::ResultsAfterDate => "get_lottery_results_after_date",
        ToolName::ResultsBeforeDate => "get_lottery_results_before_date",
        ToolName::ResultsByDateRange => "get_lottery_results_by_date_range",
        ToolName::ResultsByYear => "get_lottery_results_by_year",
        ToolName::ResultsByMonth => "get_lottery_results_by_month",
        ToolName::LatestResults => "get_latest_lottery_results",
        ToolName::LotteryByDate => "get_lottery_by_date",
        ToolName::SearchNumber => "search_number",
        ToolName::CompleteLotteryData => "get_complete_lottery_data",
        ToolName::GenerateAndSaveReport => "generate_and_save_report",
        ToolName::CreateDatabase => "create_database",
    }
}

/// Every tool, in the order they are listed.
pub open spec fn tool_at(i: int) -> ToolName {
    if i == 0 { ToolName::ParseAndInsertRawJson }
    else if i == 1 { ToolName::FetchAndSaveMultipleResults }
    else if i == 2 { ToolName::ResultsAfterDate }
    else if i == 3 { ToolName::ResultsBeforeDate }
    else if i == 4 { ToolName::ResultsByDateRange }
    else if i == 5 { ToolName::ResultsByYear }
    else if i == 6 { ToolName::ResultsByMonth }
    else if i == 7 { ToolName::LatestResults }
    else if i == 8 { ToolName::LotteryByDate }
    else if i == 9 { ToolName::SearchNumber }
    else if i == 10 { ToolName::CompleteLotteryData }
    else if i == 11 { ToolName::GenerateAndSaveReport }
    else { ToolName::CreateDatabase }
}

/// The number of tools.
pub const TOOL_COUNT: usize = 13;

/// The tool at position `i` of the listing.
pub fn tool_at_index(i: usize) -> (r: ToolName)
    requires
        i < TOOL_COUNT,
    ensures
        r == tool_at(i as int),
{
    if i == 0 { ToolName::ParseAndInsertRawJson }
    else if i == 1 { ToolName::FetchAndSaveMultipleResults }
    else if i == 2 { ToolName::ResultsAfterDate }
    else if i == 3 { ToolName::ResultsBeforeDate }
    else if i == 4 { ToolName::ResultsByDateRange }
    else if i == 5 { ToolName::ResultsByYear }
    else if i == 6 { ToolName::ResultsByMonth }
    else if i == 7 { ToolName::LatestResults }
    else if i == 8 { ToolName::LotteryByDate }
    else if i == 9 { ToolName::SearchNumber }
    else if i == 10 { ToolName::CompleteLotteryData }
    else if i == 11 { ToolName::GenerateAndSaveReport }
    else { ToolName::CreateDatabase }
}

/// The tool a name selects, if any.
pub fn tool_named(name: &str) -> (r: Option<ToolName>)
    ensures
        match r {
            Some(t) => tool_label(t) == name@,
            None => forall|i: int| 0 <= i < TOOL_COUNT ==> tool_label(#[trigger] tool_at(i)) != name@,
        },
{
    let mut i: usize = 0;
    while i < TOOL_COUNT
        invariant
            0 <= i <= TOOL_COUNT,
            forall|k: int| 0 <= k < i ==> tool_label(#[trigger] tool_at(k)) != name@,
        decreases TOOL_COUNT - i,
    {
        let t = tool_at_index(i);
        if same_text(name, tool_name_text(t)) {
            return Some(t);
        }
        i += 1;
    }
    None
}

} // verus!
