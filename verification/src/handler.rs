//! The command line: which request the arguments make, and what is wrong
//! with them where they make none.
use crate::filter::{parse_filter_options, parsed_filters, FilterCriteria, FilterOptions};
use crate::grouping::{duplicate_groups, group_views, DuplicateGroup, DuplicateGrouping};
use crate::text::texts;
use vstd::prelude::*;
use vstd::slice::slice_subrange;
use vstd::string::StringExecFns;

verus! {

/// What the command line asks for.
#[derive(Debug, Clone)]
pub enum Request {
    /// Compare two files.
    Compare { file1: String, file2: String },
    /// Scan a directory and list the duplicates.
    Scan { dir: String, filters: FilterOptions },
    /// Scan a directory and write the report to a file.
    Report { dir: String, output_path: String, filters: FilterOptions },
    /// Scan a directory and delete all but one copy of each duplicate.
    Delete { dir: String, dry_run: bool, filters: FilterOptions },
    /// Scan the files of a directory that pass the filters.
    Filter { dir: String, filters: FilterOptions },
}

/// A `Request` as plain values.
pub enum RequestView {
    Compare { file1: Seq<char>, file2: Seq<char> },
    Scan { dir: Seq<char>, filters: FilterCriteria },
    Report { dir: Seq<char>, output_path: Seq<char>, filters: FilterCriteria },
    Delete { dir: Seq<char>, dry_run: bool, filters: FilterCriteria },
    Filter { dir: Seq<char>, filters: FilterCriteria },
}

impl View for Request {
    type V = RequestView;

    open spec fn view(&self) -> RequestView {
        match *self {
            Request::Compare { file1, file2 } => RequestView::Compare {
                file1: file1@,
                file2: file2@,
            },
            Request::Scan { dir, filters } => RequestView::Scan { dir: dir@, filters: filters@ },
            Request::Report { dir, output_path, filters } => RequestView::Report {
                dir: dir@,
                output_path: output_path@,
                filters: filters@,
            },
            Request::Delete { dir, dry_run, filters } => RequestView::Delete {
                dir: dir@,
                dry_run,
                filters: filters@,
            },
            Request::Filter { dir, filters } => RequestView::Filter {
                dir: dir@,
                filters: filters@,
            },
        }
    }
}

/// Why the arguments make no request.
#[derive(Debug, Clone, PartialEq, Eq)]
pub enum ArgumentError {
    /// No command was given.
    NotEnoughArguments,
    /// The command is none of the five.
    UnknownCommand(String),
    /// `compare` was not given exactly two paths.
    CompareNeedsTwoPaths,
    /// `scan` was given no directory.
    ScanNeedsDirectory,
    /// `report` was not given a directory and an output file.
    ReportNeedsDirectoryAndOutput,
    /// `delete` was given no directory.
    DeleteNeedsDirectory,
    /// `filter` was given no directory.
    FilterNeedsDirectory,
}

/// An `ArgumentError` as plain values.
pub enum ArgumentErrorView {
    NotEnoughArguments,
    UnknownCommand(Seq<char>),
    CompareNeedsTwoPaths,
    ScanNeedsDirectory,
    ReportNeedsDirectoryAndOutput,
    DeleteNeedsDirectory,
    FilterNeedsDirectory,
}

impl View for ArgumentError {
    type V = ArgumentErrorView;

    open spec fn view(&self) -> ArgumentErrorView {
        match *self {
            ArgumentError::NotEnoughArguments => ArgumentErrorView::NotEnoughArguments,
            ArgumentError::UnknownCommand(name) => ArgumentErrorView::UnknownCommand(name@),
            ArgumentError::CompareNeedsTwoPaths => ArgumentErrorView::CompareNeedsTwoPaths,
            ArgumentError::ScanNeedsDirectory => ArgumentErrorView::ScanNeedsDirectory,
            ArgumentError::ReportNeedsDirectoryAndOutput => {
                ArgumentErrorView::ReportNeedsDirectoryAndOutput
            },
            ArgumentError::DeleteNeedsDirectory => ArgumentErrorView::DeleteNeedsDirectory,
            ArgumentError::FilterNeedsDirectory => ArgumentErrorView::FilterNeedsDirectory,
        }
    }
}

/// The view of the outcome of reading the arguments.
pub open spec fn outcome_view(outcome: Result<Request, ArgumentError>) -> Result<
    RequestView,
    ArgumentErrorView,
> {
    match outcome {
        Ok(request) => Ok(request@),
        Err(error) => Err(error@),
    }
}

/// What `compare` makes of the arguments: exactly two paths are required.
pub open spec fn compare_request(args: Seq<Seq<char>>) -> Result<RequestView, ArgumentErrorView> {
    if args.len() != 4 {
        Err(ArgumentErrorView::CompareNeedsTwoPaths)
    } else {
        Ok(RequestView::Compare { file1: args[2], file2: args[3] })
    }
}

/// What `scan` makes of the arguments: a directory, then filter flags.
pub open spec fn scan_request(args: Seq<Seq<char>>) -> Result<RequestView, ArgumentErrorView> {
    if args.len() < 3 {
        Err(ArgumentErrorView::ScanNeedsDirectory)
    } else {
        Ok(RequestView::Scan { dir: args[2], filters: parsed_filters(args.skip(3)) })
    }
}

/// What `report` makes of the arguments: a directory and an output file,
/// then filter flags.
pub open spec fn report_request(args: Seq<Seq<char>>) -> Result<RequestView, ArgumentErrorView> {
    if args.len() < 4 {
        Err(ArgumentErrorView::ReportNeedsDirectoryAndOutput)
    } else {
        Ok(
            RequestView::Report {
                dir: args[2],
                output_path: args[3],
                filters: parsed_filters(args.skip(4)),
            },
        )
    }
}

/// What `delete` makes of the arguments: a directory, then filter flags. It
/// is a dry run where any argument is `--dry-run`.
pub open spec fn delete_request(args: Seq<Seq<char>>) -> Result<RequestView, ArgumentErrorView> {
    if args.len() < 3 {
        Err(ArgumentErrorView::DeleteNeedsDirectory)
    } else {
        Ok(
            RequestView::Delete {
                dir: args[2],
                dry_run: args.contains("--dry-run"@),
                filters: parsed_filters(args.skip(3)),
            },
        )
    }
}

/// What `filter` makes of the arguments: a directory, then filter flags.
pub open spec fn filter_request(args: Seq<Seq<char>>) -> Result<RequestView, ArgumentErrorView> {
    if args.len() < 3 {
        Err(ArgumentErrorView::FilterNeedsDirectory)
    } else {
        Ok(RequestView::Filter { dir: args[2], filters: parsed_filters(args.skip(3)) })
    }
}

/// The request that the arguments of the process make. The program's name
/// comes first, then the command, then the command's own arguments.
pub open spec fn request_for(args: Seq<Seq<char>>) -> Result<RequestView, ArgumentErrorView> {
    if args.len() < 2 {
        Err(ArgumentErrorView::NotEnoughArguments)
    } else if args[1] == "compare"@ {
        compare_request(args)
    } else if args[1] == "scan"@ {
        scan_request(args)
    } else if args[1] == "report"@ {
        report_request(args)
    } else if args[1] == "delete"@ {
        delete_request(args)
    } else if args[1] == "filter"@ {
        filter_request(args)
    } else {
        Err(ArgumentErrorView::UnknownCommand(args[1]))
    }
}

/// The filter options that the arguments from position `from` on ask for.
fn filters_from(args: &[String], from: usize) -> (filters: FilterOptions)
    requires
        from <= args.len(),
    ensures
        filters@ == parsed_filters(texts(args@).skip(from as int)),
{
    let rest = slice_subrange(args, from, args.len());
    assert(texts(rest@) =~= texts(args@).skip(from as int));
    parse_filter_options(rest)
}

/// Handles the arguments of the `compare` command.
pub fn handle_compare_command(args: &[String]) -> (outcome: Result<Request, ArgumentError>)
    ensures
        outcome_view(outcome) == compare_request(texts(args@)),
{
    if args.len() != 4 {
        return Err(ArgumentError::CompareNeedsTwoPaths);
    }
    Ok(Request::Compare { file1: args[2].clone(), file2: args[3].clone() })
}

/// Handles the arguments of the `scan` command.
pub fn handle_scan_command(args: &[String]) -> (outcome: Result<Request, ArgumentError>)
    ensures
        outcome_view(outcome) == scan_request(texts(args@)),
{
    if args.len() < 3 {
        return Err(ArgumentError::ScanNeedsDirectory);
    }
    Ok(Request::Scan { dir: args[2].clone(), filters: filters_from(args, 3) })
}

/// Handles the arguments of the `report` command.
pub fn handle_report_command(args: &[String]) -> (outcome: Result<Request, ArgumentError>)
    ensures
        outcome_view(outcome) == report_request(texts(args@)),
{
    if args.len() < 4 {
        return Err(ArgumentError::ReportNeedsDirectoryAndOutput);
    }
    Ok(
        Request::Report {
            dir: args[2].clone(),
            output_path: args[3].clone(),
            filters: filters_from(args, 4),
        },
    )
}

/// Whether one of the arguments is `--dry-run`.
fn asks_for_dry_run(args: &[String]) -> (dry_run: bool)
    ensures
        dry_run == texts(args@).contains("--dry-run"@),
{
    let ghost tokens = texts(args@);
    let mut i: usize = 0;
    while i < args.len()
        invariant
            i <= args.len(),
            tokens == texts(args@),
            forall|k: int| 0 <= k < i ==> tokens[k] != "--dry-run"@,
        decreases args.len() - i,
    {
        if args[i].as_str().eq("--dry-run") {
            assert(tokens[i as int] == "--dry-run"@);
            return true;
        }
        i += 1;
    }
    false
}

/// Handles the arguments of the `delete` command.
pub fn handle_delete_command(args: &[String]) -> (outcome: Result<Request, ArgumentError>)
    ensures
        outcome_view(outcome) == delete_request(texts(args@)),
{
    if args.len() < 3 {
        return Err(ArgumentError::DeleteNeedsDirectory);
    }
    let dry_run = asks_for_dry_run(args);
    Ok(Request::Delete { dir: args[2].clone(), dry_run, filters: filters_from(args, 3) })
}

/// Handles the arguments of the `filter` command.
pub fn handle_filter_command(args: &[String]) -> (outcome: Result<Request, ArgumentError>)
    ensures
        outcome_view(outcome) == filter_request(texts(args@)),
{
    if args.len() < 3 {
        return Err(ArgumentError::FilterNeedsDirectory);
    }
    Ok(Request::Filter { dir: args[2].clone(), filters: filters_from(args, 3) })
}

/// Reads the arguments of the process and hands them to the command they
/// name.
pub fn parse_command(args: &[String]) -> (outcome: Result<Request, ArgumentError>)
    ensures
        outcome_view(outcome) == request_for(texts(args@)),
{
    if args.len() < 2 {
        return Err(ArgumentError::NotEnoughArguments);
    }
    let command = args[1].as_str();
    if command.eq("compare") {
        handle_compare_command(args)
    } else if command.eq("scan") {
        handle_scan_command(args)
    } else if command.eq("report") {
        handle_report_command(args)
    } else if command.eq("delete") {
        handle_delete_command(args)
    } else if command.eq("filter") {
        handle_filter_command(args)
    } else {
        Err(ArgumentError::UnknownCommand(args[1].clone()))
    }
}

impl ArgumentErrorView {
    /// The message shown for the error.
    pub open spec fn message(self) -> Seq<char> {
        match self {
            ArgumentErrorView::NotEnoughArguments => "Error: Not enough arguments.\n"@,
            ArgumentErrorView::UnknownCommand(name) => "Error: Unknown command '"@ + name + "'"@,
            ArgumentErrorView::CompareNeedsTwoPaths => "Error: compare requires 2 file paths."@,
            ArgumentErrorView::ScanNeedsDirectory => "Error: scan requires a directory path."@,
            ArgumentErrorView::ReportNeedsDirectoryAndOutput => {
                "Error: report requires a directory and an output file."@
            },
            ArgumentErrorView::DeleteNeedsDirectory => "Error: delete requires a directory."@,
            ArgumentErrorView::FilterNeedsDirectory => "Error: filter requires a directory path."@,
        }
    }

    /// Whether the usage guide is shown after the message: where no known
    /// command was given.
    pub open spec fn shows_usage(self) -> bool {
        self is NotEnoughArguments || self is UnknownCommand
    }
}

impl ArgumentError {
    /// The message to show for the error.
    pub fn message(&self) -> (text: String)
        ensures
            text@ == self@.message(),
    {
        match self {
            ArgumentError::NotEnoughArguments => String::from_str("Error: Not enough arguments.\n"),
            ArgumentError::UnknownCommand(name) => {
                let mut text = String::from_str("Error: Unknown command '");
                text.append(name.as_str());
                text.append("'");
                text
            },
            ArgumentError::CompareNeedsTwoPaths => String::from_str(
                "Error: compare requires 2 file paths.",
            ),
            ArgumentError::ScanNeedsDirectory => String::from_str(
                "Error: scan requires a directory path.",
            ),
            ArgumentError::ReportNeedsDirectoryAndOutput => String::from_str(
                "Error: report requires a directory and an output file.",
            ),
            ArgumentError::DeleteNeedsDirectory => String::from_str(
                "Error: delete requires a directory.",
            ),
            ArgumentError::FilterNeedsDirectory => String::from_str(
                "Error: filter requires a directory path.",
            ),
        }
    }

    /// Whether the usage guide is to be shown after the message.
    pub fn shows_usage(&self) -> (shown: bool)
        ensures
            shown == self@.shows_usage(),
    {
        match self {
            ArgumentError::NotEnoughArguments => true,
            ArgumentError::UnknownCommand(_) => true,
            _ => false,
        }
    }
}

/// What a scan has to show.
#[derive(Debug, Clone, PartialEq, Eq)]
pub enum ScanSummary {
    /// No file was grouped at all.
    NothingFound,
    /// Files were grouped, and no two of them share a fingerprint.
    NoDuplicates,
    /// The groups of files that share a fingerprint.
    Duplicates(Vec<DuplicateGroup>),
}

/// Sums up a grouping for display: whether anything was found, and the
/// groups with two files or more.
pub fn summarize_scan(grouping: &DuplicateGrouping) -> (summary: ScanSummary)
    ensures
        match summary {
            ScanSummary::NothingFound => grouping.hashes().len() == 0,
            ScanSummary::NoDuplicates => {
                &&& grouping.hashes().len() > 0
                &&& duplicate_groups(grouping.listing()).len() == 0
            },
            ScanSummary::Duplicates(groups) => {
                &&& groups@.len() > 0
                &&& group_views(groups@) == duplicate_groups(grouping.listing())
            },
        },
{
    if grouping.is_empty() {
        return ScanSummary::NothingFound;
    }
    let groups = grouping.duplicates();
    if groups.len() == 0 {
        ScanSummary::NoDuplicates
    } else {
        ScanSummary::Duplicates(groups)
    }
}

} // verus!
