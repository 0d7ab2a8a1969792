//! Filter criteria: which files take part in a scan.
use crate::text::{
    eq_ignore_ascii_case, eq_ignore_ascii_case_spec, parse_u64, parse_u64_spec, split_trimmed,
    split_trimmed_spec, texts,
};
use regex::Regex;
use vstd::prelude::*;

verus! {

/// `regex::Regex`, a compiled regular expression. The library only carries
/// it from where it is compiled to where it is matched.
#[verifier::external_type_specification]
#[verifier::external_body]
pub struct ExRegex(Regex);

/// Whether `pattern` finds a match anywhere in `text`: the answer of
/// `regex::Regex::is_match`. Nothing is proved of it here but that it is a
/// function of the expression and the text.
pub uninterp spec fn regex_matches(pattern: Regex, text: Seq<char>) -> bool;

/// What `regex::Regex::new` makes of `source`: the compiled expression, or
/// nothing where `source` is rejected. Nothing is proved of it here but that
/// it is a function of `source`.
pub uninterp spec fn regex_compiled(source: Seq<char>) -> Option<Regex>;

/// Calls `regex::Regex::is_match`. Trusted: the answer depends on the
/// expression and the text alone.
#[verifier::external_body]
fn regex_is_match(pattern: &Regex, text: &str) -> (found: bool)
    ensures
        found == regex_matches(*pattern, text@),
{
    pattern.is_match(text)
}

/// Calls `regex::Regex::new` and drops the error of a rejected expression.
/// Trusted: the outcome depends on `source` alone.
#[verifier::external_body]
fn regex_compile(source: &str) -> (pattern: Option<Regex>)
    ensures
        pattern == regex_compiled(source@),
{
    Regex::new(source).ok()
}

/// What a scan knows of one file before it is hashed.
#[derive(Debug, Clone, PartialEq, Eq)]
pub struct FileRecord {
    /// The path that identifies the file.
    pub path: String,
    /// The last component of the path, where it has one that is valid text.
    pub file_name: Option<String>,
    /// The extension of the file name, without the dot, where it has one.
    pub extension: Option<String>,
    /// The size in bytes, where the file's metadata could be read.
    pub size: Option<u64>,
}

/// A `FileRecord` as plain values.
pub struct FileFacts {
    pub path: Seq<char>,
    pub file_name: Option<Seq<char>>,
    pub extension: Option<Seq<char>>,
    pub size: Option<u64>,
}

/// The characters of an optional string.
pub open spec fn text_of(text: Option<String>) -> Option<Seq<char>> {
    match text {
        Some(t) => Some(t@),
        None => None,
    }
}

impl View for FileRecord {
    type V = FileFacts;

    open spec fn view(&self) -> FileFacts {
        FileFacts {
            path: self.path@,
            file_name: text_of(self.file_name),
            extension: text_of(self.extension),
            size: self.size,
        }
    }
}

/// Structure to hold filtering options. A criterion that is `None` places no
/// constraint on a file.
#[derive(Debug, Clone)]
pub struct FilterOptions {
    /// Smallest accepted size in bytes.
    pub min_size: Option<u64>,
    /// Largest accepted size in bytes.
    pub max_size: Option<u64>,
    /// Accepted extensions, without the leading dot.
    pub extensions: Option<Vec<String>>,
    /// Expression that the file name has to match.
    pub regex: Option<Regex>,
}

/// The criteria of a `FilterOptions` as plain values.
pub struct FilterCriteria {
    pub min_size: Option<u64>,
    pub max_size: Option<u64>,
    pub extensions: Option<Seq<Seq<char>>>,
    pub regex: Option<Regex>,
}

impl View for FilterOptions {
    type V = FilterCriteria;

    open spec fn view(&self) -> FilterCriteria {
        FilterCriteria {
            min_size: self.min_size,
            max_size: self.max_size,
            extensions: match self.extensions {
                Some(list) => Some(texts(list@)),
                None => None,
            },
            regex: self.regex,
        }
    }
}

/// Whether `extension` equals one of the `allowed` extensions up to ASCII
/// case.
pub open spec fn is_allowed(allowed: Seq<Seq<char>>, extension: Seq<char>) -> bool {
    exists|i: int|
        0 <= i < allowed.len() && eq_ignore_ascii_case_spec(#[trigger] allowed[i], extension)
}

impl FilterCriteria {
    /// No criterion at all.
    pub open spec fn none() -> FilterCriteria {
        FilterCriteria { min_size: None, max_size: None, extensions: None, regex: None }
    }

    /// The size bounds hold of a file of this size. A file whose size is not
    /// known passes.
    pub open spec fn size_ok(self, size: Option<u64>) -> bool {
        size matches Some(bytes) ==> {
            &&& self.min_size matches Some(min) ==> min <= bytes
            &&& self.max_size matches Some(max) ==> bytes <= max
        }
    }

    /// The extension is on the allow-list, compared without regard to ASCII
    /// case. With an allow-list, a file without extension fails.
    pub open spec fn extension_ok(self, extension: Option<Seq<char>>) -> bool {
        match self.extensions {
            None => true,
            Some(allowed) => match extension {
                None => false,
                Some(ext) => is_allowed(allowed, ext),
            },
        }
    }

    /// The file name matches the expression. With an expression, a file
    /// without a readable name fails.
    pub open spec fn name_ok(self, file_name: Option<Seq<char>>) -> bool {
        match self.regex {
            None => true,
            Some(pattern) => match file_name {
                None => false,
                Some(name) => regex_matches(pattern, name),
            },
        }
    }

    /// The file satisfies every criterion that is set.
    pub open spec fn accepts(self, file: FileFacts) -> bool {
        &&& self.size_ok(file.size)
        &&& self.extension_ok(file.extension)
        &&& self.name_ok(file.file_name)
    }

    /// `more` has every criterion of `self`, unchanged, and possibly others.
    pub open spec fn is_refined_by(self, more: FilterCriteria) -> bool {
        &&& self.min_size is Some ==> more.min_size == self.min_size
        &&& self.max_size is Some ==> more.max_size == self.max_size
        &&& self.extensions is Some ==> more.extensions == self.extensions
        &&& self.regex is Some ==> more.regex == self.regex
    }
}

/// Default implementation: match all files
impl Default for FilterOptions {
    fn default() -> (options: FilterOptions)
        ensures
            options@ == FilterCriteria::none(),
    {
        FilterOptions { min_size: None, max_size: None, extensions: None, regex: None }
    }
}

/// Implements filtering logic for files based on size, extension, and regex criteria.
impl FilterOptions {
    /// Checks if the given `file` matches all filter options: size, extension, and regex.
    pub fn matches(&self, file: &FileRecord) -> (accepted: bool)
        ensures
            accepted == self@.accepts(file@),
    {
        self.check_size(file) && self.check_extension(file) && self.check_regex(file)
    }

    /// Checks if the file matches the size constraints.
    fn check_size(&self, file: &FileRecord) -> (ok: bool)
        ensures
            ok == self@.size_ok(file.size),
    {
        if let Some(bytes) = file.size {
            if let Some(min) = self.min_size {
                if bytes < min {
                    return false;
                }
            }
            if let Some(max) = self.max_size {
                if bytes > max {
                    return false;
                }
            }
        }
        true
    }

    /// Checks if the file's extension is one of the allowed extensions.
    fn check_extension(&self, file: &FileRecord) -> (ok: bool)
        ensures
            ok == self@.extension_ok(file@.extension),
    {
        if let Some(exts) = &self.extensions {
            if let Some(ext) = &file.extension {
                let ghost allowed = texts(exts@);
                let mut i: usize = 0;
                while i < exts.len()
                    invariant
                        i <= exts.len(),
                        self.extensions == Some(*exts),
                        file.extension == Some(*ext),
                        allowed == texts(exts@),
                        forall|k: int|
                            0 <= k < i ==> !eq_ignore_ascii_case_spec(#[trigger] allowed[k], ext@),
                    decreases exts.len() - i,
                {
                    if eq_ignore_ascii_case(exts[i].as_str(), ext.as_str()) {
                        assert(eq_ignore_ascii_case_spec(allowed[i as int], ext@));
                        return true;
                    }
                    i += 1;
                }
                return false;
            } else {
                return false;
            }
        }
        true
    }

    /// Checks if the file name matches the regex pattern.
    fn check_regex(&self, file: &FileRecord) -> (ok: bool)
        ensures
            ok == self@.name_ok(file@.file_name),
    {
        if let Some(re) = &self.regex {
            if let Some(name) = &file.file_name {
                return regex_is_match(re, name.as_str());
            } else {
                return false;
            }
        }
        true
    }
}

/// Whether `token` is one of the four filter flags.
pub open spec fn is_filter_flag(token: Seq<char>) -> bool {
    token == "--min"@ || token == "--max"@ || token == "--ext"@ || token == "--regex"@
}

/// The argument that follows position `at`, if there is one.
pub open spec fn value_after(args: Seq<Seq<char>>, at: int) -> Option<Seq<char>> {
    if 0 <= at + 1 < args.len() {
        Some(args[at + 1])
    } else {
        None
    }
}

/// The criteria after `flag` was read with `value` behind it. The flag sets
/// its own criterion anew (to nothing where the value is missing or cannot
/// be read) and leaves the others as they were.
pub open spec fn with_flag(
    criteria: FilterCriteria,
    flag: Seq<char>,
    value: Option<Seq<char>>,
) -> FilterCriteria {
    if flag == "--min"@ {
        FilterCriteria {
            min_size: match value {
                Some(v) => parse_u64_spec(v),
                None => None,
            },
            ..criteria
        }
    } else if flag == "--max"@ {
        FilterCriteria {
            max_size: match value {
                Some(v) => parse_u64_spec(v),
                None => None,
            },
            ..criteria
        }
    } else if flag == "--ext"@ {
        FilterCriteria {
            extensions: match value {
                Some(v) => Some(split_trimmed_spec(v, ',')),
                None => None,
            },
            ..criteria
        }
    } else if flag == "--regex"@ {
        FilterCriteria {
            regex: match value {
                Some(v) => regex_compiled(v),
                None => None,
            },
            ..criteria
        }
    } else {
        criteria
    }
}

/// The criteria that result from reading `args` from position `at` on,
/// starting with `criteria`. A flag takes the argument behind it as its
/// value, whatever that argument is; an argument that is neither a flag nor
/// a value is passed over.
pub open spec fn parse_from(args: Seq<Seq<char>>, at: int, criteria: FilterCriteria)
    -> FilterCriteria
    decreases args.len() + 1 - at,
{
    if at < 0 || at >= args.len() {
        criteria
    } else if is_filter_flag(args[at]) {
        parse_from(args, at + 2, with_flag(criteria, args[at], value_after(args, at)))
    } else {
        parse_from(args, at + 1, criteria)
    }
}

/// The criteria that the command-line arguments `args` ask for.
pub open spec fn parsed_filters(args: Seq<Seq<char>>) -> FilterCriteria {
    parse_from(args, 0, FilterCriteria::none())
}

/// Helper to parse filtering options from CLI args
pub fn parse_filter_options(args: &[String]) -> (options: FilterOptions)
    ensures
        options@ == parsed_filters(texts(args@)),
{
    let mut options = FilterOptions::default();
    let ghost tokens = texts(args@);
    let mut i: usize = 0;
    while i < args.len()
        invariant
            i <= args.len(),
            tokens == texts(args@),
            parse_from(tokens, i as int, options@) == parsed_filters(tokens),
        decreases args.len() - i,
    {
        let flag = args[i].as_str();
        let has_value = i + 1 < args.len();
        let ghost before = options@;
        proof {
            if !has_value {
                let after = with_flag(before, flag@, None);
                assert(parse_from(tokens, i + 2, after) == after);
            }
        }
        if flag.eq("--min") {
            options.min_size = if has_value {
                parse_u64(args[i + 1].as_str())
            } else {
                None
            };
        } else if flag.eq("--max") {
            options.max_size = if has_value {
                parse_u64(args[i + 1].as_str())
            } else {
                None
            };
        } else if flag.eq("--ext") {
            options.extensions = if has_value {
                Some(split_trimmed(args[i + 1].as_str(), ','))
            } else {
                None
            };
        } else if flag.eq("--regex") {
            options.regex = if has_value {
                regex_compile(args[i + 1].as_str())
            } else {
                None
            };
        } else {
            i += 1;
            continue;
        }
        i = if has_value {
            i + 2
        } else {
            args.len()
        };
    }
    options
}

/// Any file passes a filter without criteria.
pub proof fn lemma_no_criteria_accept_all(file: FileFacts)
    ensures
        FilterCriteria::none().accepts(file),
{
}

/// Adding criteria to a filter can only remove files: whatever the filter
/// with more criteria accepts, the filter with fewer accepts too.
pub proof fn lemma_filter_monotonic(fewer: FilterCriteria, more: FilterCriteria, file: FileFacts)
    requires
        fewer.is_refined_by(more),
    ensures
        more.accepts(file) ==> fewer.accepts(file),
{
}

} // verus!
