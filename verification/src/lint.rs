//! Lints, the matches they produce and the errors they fail with.

use vstd::prelude::*;
use vstd::slice::slice_subrange;
use vstd::string::StringExecFns;
use vstd::utf8::is_ascii_chars;
use vstd::utf8::valid_utf8;

use crate::catalog::builtin_definitions;
use crate::catalog::builtin_names;
use crate::catalog::definition_views;
use crate::catalog::law_builtin_names;
use crate::catalog::law_builtin_patterns_are_ascii;
use crate::catalog::lint_definitions;
use crate::directive::comment_covers;
use crate::directive::comment_disables;
use crate::directive::directive_disables;
use crate::order::arranged;
use crate::order::law_arranged_is_ordered;
use crate::order::law_arranged_is_permutation;
use crate::order::law_arranged_is_stable;
use crate::order::ordered;
use crate::order::sort_matches;
use crate::order::with_key;
use crate::report::decimal;
use crate::report::push_decimal;
use crate::syntax::compile_query;
use crate::syntax::node_lineage;
use crate::syntax::parent_of;
use crate::syntax::parse_source;
use crate::syntax::parse_status;
use crate::syntax::pattern_count;
use crate::syntax::pattern_settings;
use crate::syntax::preceding_sibling;
use crate::syntax::query_captures;
use crate::syntax::query_compiles;
use crate::syntax::query_limit_exceeded;
use crate::syntax::query_pattern_count;
use crate::syntax::query_settings;
use crate::syntax::query_text;
use crate::syntax::range_of;
use crate::syntax::run_query;
use crate::syntax::tree_text;
use crate::syntax::Capture;
use crate::syntax::CaptureView;
use crate::syntax::ParseStatus;
use crate::syntax::Setting;
use crate::syntax::SiblingView;
use crate::text::chars_of;
use crate::text::same_text;
use crate::text::utf8_text;
use crate::Range;

verus! {

/// Meta data about a lint.
///
/// The struct is non-exhaustive and open to extension.
#[derive(Debug)]
#[non_exhaustive]
pub struct LintMeta {
    /// The lint's name.
    pub name: String,
}

impl Clone for LintMeta {
    fn clone(&self) -> (meta: Self)
        ensures
            meta == *self,
    {
        LintMeta { name: self.name.clone() }
    }
}

/// Details about a lint match.
#[derive(Debug)]
pub struct LintMatch {
    /// The name of the lint that matched.
    pub lint_name: String,
    /// The lint's message.
    pub message: String,
    /// The code range that triggered the lint.
    pub range: Range,
}

/// A lint match with its texts as sequences of characters.
pub struct MatchView {
    /// The name of the lint that matched.
    pub lint_name: Seq<char>,
    /// The lint's message.
    pub message: Seq<char>,
    /// The code range that triggered the lint.
    pub range: Range,
}

impl Clone for LintMatch {
    fn clone(&self) -> (found: Self)
        ensures
            found == *self,
    {
        LintMatch {
            lint_name: self.lint_name.clone(),
            message: self.message.clone(),
            range: self.range.clone(),
        }
    }
}

impl View for LintMatch {
    type V = MatchView;

    open spec fn view(&self) -> MatchView {
        MatchView { lint_name: self.lint_name@, message: self.message@, range: self.range }
    }
}

/// The views of a sequence of matches, one by one.
pub open spec fn match_views(matches: Seq<LintMatch>) -> Seq<MatchView> {
    matches.map_values(|m: LintMatch| m@)
}

/// Why linting failed.
#[derive(Debug)]
#[allow(inconsistent_fields)]
pub enum LintError {
    /// The parser does not take the grammar of BPF C.
    Language {
        /// What the parser has to say about it.
        source: tree_sitter::LanguageError,
    },
    /// The parser made no tree of the source code.
    Parse,
    /// The lint's pattern does not compile.
    Query {
        /// The name of the lint.
        lint_name: String,
        /// What the compiler of patterns has to say about it.
        source: tree_sitter::QueryError,
    },
    /// The lint's pattern source does not hold exactly one pattern.
    PatternCount {
        /// The name of the lint.
        lint_name: String,
    },
    /// The lint's pattern sets no `message` property.
    MissingMessage {
        /// The name of the lint.
        lint_name: String,
    },
    /// The lint's pattern sets a `message` property without a value.
    MissingValue {
        /// The name of the lint.
        lint_name: String,
    },
}

/// A lint error with its texts as sequences of characters.
pub enum ErrorView {
    /// The parser does not take the grammar of BPF C.
    Language,
    /// The parser made no tree of the source code.
    Parse,
    /// The pattern of the lint of this name does not compile.
    Query(Seq<char>),
    /// The pattern source of the lint of this name does not hold
    /// exactly one pattern.
    PatternCount(Seq<char>),
    /// The pattern of the lint of this name sets no `message` property.
    MissingMessage(Seq<char>),
    /// The pattern of the lint of this name sets a `message` property
    /// without a value.
    MissingValue(Seq<char>),
}

impl View for LintError {
    type V = ErrorView;

    open spec fn view(&self) -> ErrorView {
        match self {
            LintError::Language { .. } => ErrorView::Language,
            LintError::Parse => ErrorView::Parse,
            LintError::Query { lint_name, .. } => ErrorView::Query(lint_name@),
            LintError::PatternCount { lint_name } => ErrorView::PatternCount(lint_name@),
            LintError::MissingMessage { lint_name } => ErrorView::MissingMessage(lint_name@),
            LintError::MissingValue { lint_name } => ErrorView::MissingValue(lint_name@),
        }
    }
}

/// The text that tells of an error.
pub open spec fn error_text(error: ErrorView) -> Seq<char> {
    match error {
        ErrorView::Language => "failed to load C parser"@,
        ErrorView::Parse => "failed to provided source code"@,
        ErrorView::Query(_) => "failed to compile lint query"@,
        ErrorView::PatternCount(lint_name) => lint_name
            + ": failed to find exactly one pattern"@,
        ErrorView::MissingMessage(lint_name) => lint_name
            + ": failed to find `message` property"@,
        ErrorView::MissingValue(lint_name) => lint_name
            + ": `message` property has no value set"@,
    }
}

impl LintError {
    /// Say in words what went wrong.
    pub fn to_string(&self) -> (text: String)
        ensures
            text@ == error_text(self@),
    {
        match self {
            LintError::Language { .. } => String::from_str("failed to load C parser"),
            LintError::Parse => String::from_str("failed to provided source code"),
            LintError::Query { .. } => String::from_str("failed to compile lint query"),
            LintError::PatternCount { lint_name } => lint_name.clone().concat(
                ": failed to find exactly one pattern",
            ),
            LintError::MissingMessage { lint_name } => lint_name.clone().concat(
                ": failed to find `message` property",
            ),
            LintError::MissingValue { lint_name } => lint_name.clone().concat(
                ": `message` property has no value set",
            ),
        }
    }
}

/// Something that linting has to note besides its matches.
#[derive(Clone, Copy, Debug, PartialEq, Eq, Structural)]
pub enum LintWarning {
    /// A comment before a node or one of its ancestors is no UTF-8, and
    /// so cannot be considered as a directive.
    InvalidComment {
        /// The byte offset at which the comment starts.
        start_byte: usize,
        /// The byte offset at which the comment ends.
        end_byte: usize,
    },
    /// A query went beyond the number of matches that may be in
    /// progress at a time; some matches may be missing.
    MatchLimit,
}

/// The text that tells of a warning.
pub open spec fn warning_text(warning: LintWarning) -> Seq<char> {
    match warning {
        LintWarning::InvalidComment { start_byte, end_byte } => {
            "encountered invalid UTF-8 in code comment at bytes `"@ + decimal(start_byte as nat)
                + ".."@ + decimal(end_byte as nat) + "`"@
        },
        LintWarning::MatchLimit => "query exceeded maximum number of in-progress captures"@,
    }
}

impl LintWarning {
    /// Say in words what there is to note.
    pub fn to_string(&self) -> (text: String)
        ensures
            text@ == warning_text(*self),
    {
        match self {
            LintWarning::InvalidComment { start_byte, end_byte } => {
                let mut text = String::from_str(
                    "encountered invalid UTF-8 in code comment at bytes `",
                );
                push_decimal(&mut text, *start_byte);
                text.append("..");
                push_decimal(&mut text, *end_byte);
                text.append("`");
                text
            },
            LintWarning::MatchLimit => String::from_str(
                "query exceeded maximum number of in-progress captures",
            ),
        }
    }
}

/// What linting comes to, with all texts as sequences of characters.
pub open spec fn outcome_view(outcome: Result<Vec<LintMatch>, LintError>) -> Result<
    Seq<MatchView>,
    ErrorView,
> {
    match outcome {
        Ok(matches) => Ok(match_views(matches@)),
        Err(error) => Err(error@),
    }
}

/// Whether the node right before another one is a comment in `code`
/// that disables the lint `lint_name`.
pub open spec fn sibling_disables(
    sibling: Option<SiblingView>,
    code: Seq<u8>,
    lint_name: Seq<char>,
) -> bool {
    match sibling {
        Some(s) => {
            &&& s.kind == "comment"@
            &&& s.start_byte <= s.end_byte <= code.len()
            &&& comment_covers(code.subrange(s.start_byte as int, s.end_byte as int), lint_name)
        },
        None => false,
    }
}

/// Whether a node of the given lineage has the lint `lint_name`
/// disabled: a comment that disables the lint stands right before the
/// node itself or right before one of its ancestors.
pub open spec fn lint_disabled(
    lineage: Seq<Option<SiblingView>>,
    code: Seq<u8>,
    lint_name: Seq<char>,
) -> bool {
    exists|level: int|
        0 <= level < lineage.len() && sibling_disables(#[trigger] lineage[level], code, lint_name)
}

/// Whether the node right before another one is a comment in `code`
/// that is no UTF-8.
pub open spec fn sibling_undecodable(sibling: Option<SiblingView>, code: Seq<u8>) -> bool {
    match sibling {
        Some(s) => {
            &&& s.kind == "comment"@
            &&& s.start_byte <= s.end_byte <= code.len()
            &&& !valid_utf8(code.subrange(s.start_byte as int, s.end_byte as int))
        },
        None => false,
    }
}

/// What there is to note of the node right before another one.
pub open spec fn sibling_warnings(sibling: Option<SiblingView>, code: Seq<u8>) -> Seq<
    LintWarning,
> {
    if sibling_undecodable(sibling, code) {
        seq![
            LintWarning::InvalidComment {
                start_byte: sibling->0.start_byte as usize,
                end_byte: sibling->0.end_byte as usize,
            },
        ]
    } else {
        Seq::empty()
    }
}

/// What there is to note on the way up from a node of the given
/// lineage in search of a comment that disables the lint `lint_name`:
/// the comments met that are no UTF-8, up to the comment that disables
/// the lint or, if there is none, up to the root.
pub open spec fn walk_warnings(
    lineage: Seq<Option<SiblingView>>,
    code: Seq<u8>,
    lint_name: Seq<char>,
) -> Seq<LintWarning>
    decreases lineage.len(),
{
    if lineage.len() == 0 || sibling_disables(lineage[0], code, lint_name) {
        Seq::empty()
    } else {
        sibling_warnings(lineage[0], code) + walk_warnings(
            lineage.drop_first(),
            code,
            lint_name,
        )
    }
}

/// What there is to note on the way up from each of the captures, one
/// capture after the other.
pub open spec fn capture_warnings(
    captures: Seq<CaptureView>,
    code: Seq<u8>,
    lint_name: Seq<char>,
) -> Seq<LintWarning>
    decreases captures.len(),
{
    if captures.len() == 0 {
        Seq::empty()
    } else {
        capture_warnings(captures.drop_last(), code, lint_name) + walk_warnings(
            captures.last().lineage,
            code,
            lint_name,
        )
    }
}

/// What there is to note of a lint whose pattern source has compiled:
/// nothing if the query is not in order, and else what the captures
/// give to note and, behind that, whether there were too many matches
/// in progress.
pub open spec fn query_warnings(code: Seq<u8>, lint_name: Seq<char>, source: Seq<char>) -> Seq<
    LintWarning,
> {
    if pattern_message(lint_name, source) is Err {
        Seq::empty()
    } else {
        capture_warnings(query_captures(code, source), code, lint_name) + (
        if query_limit_exceeded(code, source) {
            seq![LintWarning::MatchLimit]
        } else {
            Seq::empty()
        })
    }
}

/// What there is to note of a lint, given whether its pattern source
/// has compiled.
pub open spec fn step_warnings(
    code: Seq<u8>,
    lint_name: Seq<char>,
    source: Seq<char>,
    compiled: bool,
) -> Seq<LintWarning> {
    if compiled {
        query_warnings(code, lint_name, source)
    } else {
        Seq::empty()
    }
}

/// What there is to note of the lints, one lint after the other, up to
/// the first that fails, given for each whether its pattern source has
/// compiled.
pub open spec fn lint_warnings_with(
    code: Seq<u8>,
    lints: Seq<(Seq<char>, Seq<char>)>,
    compiled: Seq<bool>,
) -> Seq<LintWarning>
    decreases lints.len(),
{
    if lints.len() == 0 {
        Seq::empty()
    } else if lint_all_with(code, lints.drop_last(), compiled) is Err {
        lint_warnings_with(code, lints.drop_last(), compiled)
    } else {
        lint_warnings_with(code, lints.drop_last(), compiled) + step_warnings(
            code,
            lints.last().0,
            lints.last().1,
            compiled[lints.len() - 1],
        )
    }
}

/// What there is to note of linting `code` with `lints`, given for each
/// lint whether its pattern source has compiled: nothing where no tree
/// was made of the code.
pub open spec fn warnings_with(
    code: Seq<u8>,
    lints: Seq<(Seq<char>, Seq<char>)>,
    compiled: Seq<bool>,
) -> Seq<LintWarning> {
    if parse_status(code) is Parsed {
        lint_warnings_with(code, lints, compiled)
    } else {
        Seq::empty()
    }
}

/// What there is to note of linting `code` with lints whose pattern
/// sources are made of ASCII characters.
pub open spec fn lint_warnings(code: Seq<u8>, lints: Seq<(Seq<char>, Seq<char>)>) -> Seq<
    LintWarning,
> {
    warnings_with(code, lints, compiles_of(lints))
}

/// Whether `outcome` and `warnings` are something that linting `code`
/// with `lints` may come to: they are what the lints find and give to
/// note, given for each whether its pattern source has compiled.
pub open spec fn linting_of(
    code: Seq<u8>,
    lints: Seq<(Seq<char>, Seq<char>)>,
    outcome: Result<Seq<MatchView>, ErrorView>,
    warnings: Seq<LintWarning>,
) -> bool {
    exists|compiled: Seq<bool>| #[trigger]
        admitted(lints, compiled) && outcome == lint_result_with(code, lints, compiled)
            && warnings == warnings_with(code, lints, compiled)
}

/// The value of the first property with the key `message`, if there is
/// such a property.
pub open spec fn message_setting(settings: Seq<(Seq<char>, Option<Seq<char>>)>) -> Option<
    Option<Seq<char>>,
>
    decreases settings.len(),
{
    if settings.len() == 0 {
        None
    } else if settings[0].0 == "message"@ {
        Some(settings[0].1)
    } else {
        message_setting(settings.drop_first())
    }
}

/// The message of a lint whose pattern source has compiled, if the
/// query is in order: it holds exactly one pattern, and that pattern
/// sets the property `message` to a value.
pub open spec fn pattern_message(lint_name: Seq<char>, source: Seq<char>) -> Result<
    Seq<char>,
    ErrorView,
> {
    if query_pattern_count(source) != 1 {
        Err(ErrorView::PatternCount(lint_name))
    } else {
        match message_setting(query_settings(source, 0)) {
            None => Err(ErrorView::MissingMessage(lint_name)),
            Some(None) => Err(ErrorView::MissingValue(lint_name)),
            Some(Some(message)) => Ok(message),
        }
    }
}

/// Whether a capture is left without a message: it is to be reported
/// and comes from a pattern other than the one that the message was
/// taken from.
pub open spec fn lacks_message(capture: CaptureView, code: Seq<u8>, lint_name: Seq<char>) -> bool {
    !lint_disabled(capture.lineage, code, lint_name) && capture.pattern != 0
}

/// The match that a capture is reported as, unless the lint is
/// disabled for it.
pub open spec fn reported(
    capture: CaptureView,
    code: Seq<u8>,
    lint_name: Seq<char>,
    message: Seq<char>,
) -> Option<MatchView> {
    if lint_disabled(capture.lineage, code, lint_name) {
        None
    } else {
        Some(MatchView { lint_name, message, range: capture.range })
    }
}

/// The matches of the captures for which the lint is not disabled, in
/// the order of the captures; an error if one of these lacks a
/// message.
pub open spec fn surviving(
    captures: Seq<CaptureView>,
    code: Seq<u8>,
    lint_name: Seq<char>,
    message: Seq<char>,
) -> Result<Seq<MatchView>, ErrorView> {
    if exists|i: int|
        0 <= i < captures.len() && lacks_message(#[trigger] captures[i], code, lint_name) {
        Err(ErrorView::MissingMessage(lint_name))
    } else {
        Ok(captures.filter_map(|c: CaptureView| reported(c, code, lint_name, message)))
    }
}

/// What a lint finds in `code` once its pattern source has compiled.
pub open spec fn query_outcome(code: Seq<u8>, lint_name: Seq<char>, source: Seq<char>) -> Result<
    Seq<MatchView>,
    ErrorView,
> {
    match pattern_message(lint_name, source) {
        Ok(message) => surviving(query_captures(code, source), code, lint_name, message),
        Err(error) => Err(error),
    }
}

/// What a lint finds in `code`, given whether its pattern source has
/// compiled.
pub open spec fn lint_step(
    code: Seq<u8>,
    lint_name: Seq<char>,
    source: Seq<char>,
    compiled: bool,
) -> Result<Seq<MatchView>, ErrorView> {
    if compiled {
        query_outcome(code, lint_name, source)
    } else {
        Err(ErrorView::Query(lint_name))
    }
}

/// What a lint with a pattern source of ASCII characters finds in
/// `code`.
pub open spec fn lint_outcome(code: Seq<u8>, lint_name: Seq<char>, source: Seq<char>) -> Result<
    Seq<MatchView>,
    ErrorView,
> {
    lint_step(code, lint_name, source, query_compiles(source))
}

/// Whether the pattern source of every lint is made of ASCII
/// characters.
pub open spec fn all_ascii(lints: Seq<(Seq<char>, Seq<char>)>) -> bool {
    forall|i: int| 0 <= i < lints.len() ==> is_ascii_chars((#[trigger] lints[i]).1)
}

/// For every lint, whether its pattern source compiles; this is known
/// beforehand of the pattern sources of ASCII characters.
pub open spec fn compiles_of(lints: Seq<(Seq<char>, Seq<char>)>) -> Seq<bool> {
    lints.map_values(|lint: (Seq<char>, Seq<char>)| query_compiles(lint.1))
}

/// Whether `compiled` may be what compiling the pattern sources of the
/// lints comes to, one after the other: it says of every pattern
/// source of ASCII characters whether that compiles, and anything of
/// the others.
pub open spec fn admitted(lints: Seq<(Seq<char>, Seq<char>)>, compiled: Seq<bool>) -> bool {
    &&& compiled.len() == lints.len()
    &&& forall|i: int|
        0 <= i < lints.len() && is_ascii_chars((#[trigger] lints[i]).1) ==> compiled[i]
            == query_compiles(lints[i].1)
}

/// What the lints find in `code`, one lint after the other, given for
/// each whether its pattern source has compiled; the first error ends
/// it.
pub open spec fn lint_all_with(
    code: Seq<u8>,
    lints: Seq<(Seq<char>, Seq<char>)>,
    compiled: Seq<bool>,
) -> Result<Seq<MatchView>, ErrorView>
    decreases lints.len(),
{
    if lints.len() == 0 {
        Ok(Seq::empty())
    } else {
        match lint_all_with(code, lints.drop_last(), compiled) {
            Ok(matches) => match lint_step(
                code,
                lints.last().0,
                lints.last().1,
                compiled[lints.len() - 1],
            ) {
                Ok(more) => Ok(matches + more),
                Err(error) => Err(error),
            },
            Err(error) => Err(error),
        }
    }
}

/// What linting `code` with `lints` comes to, given for each lint
/// whether its pattern source has compiled: the matches of all lints
/// in the order of a report, or the first error.
pub open spec fn lint_result_with(
    code: Seq<u8>,
    lints: Seq<(Seq<char>, Seq<char>)>,
    compiled: Seq<bool>,
) -> Result<Seq<MatchView>, ErrorView> {
    match parse_status(code) {
        ParseStatus::NoLanguage => Err(ErrorView::Language),
        ParseStatus::NoTree => Err(ErrorView::Parse),
        ParseStatus::Parsed => match lint_all_with(code, lints, compiled) {
            Ok(matches) => Ok(arranged(matches)),
            Err(error) => Err(error),
        },
    }
}

/// What linting `code` with lints comes to whose pattern sources are
/// made of ASCII characters.
pub open spec fn lint_result(code: Seq<u8>, lints: Seq<(Seq<char>, Seq<char>)>) -> Result<
    Seq<MatchView>,
    ErrorView,
> {
    lint_result_with(code, lints, compiles_of(lints))
}

/// Whether `outcome` is something that linting `code` with `lints`
/// may come to: it is what the lints find, given for each whether its
/// pattern source has compiled.
pub open spec fn lint_outcome_of(
    code: Seq<u8>,
    lints: Seq<(Seq<char>, Seq<char>)>,
    outcome: Result<Seq<MatchView>, ErrorView>,
) -> bool {
    exists|compiled: Seq<bool>| #[trigger]
        admitted(lints, compiled) && outcome == lint_result_with(code, lints, compiled)
}

/// The matches that linting returns are in order: none stands behind
/// one that starts later, or that starts with it and ends later. And
/// the order is stable: matches that tie, having the same start and the
/// same end, stand as the lints found them, one lint after the other
/// in the order in which the lints were given.
pub proof fn law_matches_are_ordered(
    code: Seq<u8>,
    lints: Seq<(Seq<char>, Seq<char>)>,
    compiled: Seq<bool>,
)
    ensures
        lint_result_with(code, lints, compiled) matches Ok(matches) ==> {
            &&& ordered(matches)
            &&& lint_all_with(code, lints, compiled) matches Ok(found)
            &&& matches.to_multiset() == found.to_multiset()
            &&& forall|key: (int, int, int, int)| #[trigger]
                with_key(matches, key) == with_key(found, key)
        },
{
    if let Ok(found) = lint_all_with(code, lints, compiled) {
        law_arranged_is_ordered(found);
        law_arranged_is_permutation(found);
        assert forall|key: (int, int, int, int)| #[trigger]
            with_key(arranged(found), key) == with_key(found, key) by {
            law_arranged_is_stable(found, key);
        }
    }
}

/// Linting the same bytes twice, with the same lints of pattern
/// sources in ASCII characters, comes to the same: the same matches in
/// the same order, or the same error.
pub proof fn law_linting_repeats(
    code: Seq<u8>,
    lints: Seq<(Seq<char>, Seq<char>)>,
    first: Result<Vec<LintMatch>, LintError>,
    second: Result<Vec<LintMatch>, LintError>,
)
    requires
        all_ascii(lints),
        lint_outcome_of(code, lints, outcome_view(first)),
        lint_outcome_of(code, lints, outcome_view(second)),
    ensures
        outcome_view(first) == outcome_view(second),
        outcome_view(first) == lint_result(code, lints),
        first matches Ok(matches) ==> second matches Ok(again) && match_views(again@)
            == match_views(matches@),
{
    lemma_ascii_outcome(code, lints, outcome_view(first));
    lemma_ascii_outcome(code, lints, outcome_view(second));
}

/// What the lints find, given for each whether its pattern source has
/// compiled, is something that linting may come to; and with pattern
/// sources of ASCII characters it is the one thing.
pub proof fn lemma_outcome_found(
    code: Seq<u8>,
    lints: Seq<(Seq<char>, Seq<char>)>,
    compiled: Seq<bool>,
    outcome: Result<Seq<MatchView>, ErrorView>,
)
    requires
        admitted(lints, compiled),
        outcome == lint_result_with(code, lints, compiled),
    ensures
        lint_outcome_of(code, lints, outcome),
        all_ascii(lints) ==> outcome == lint_result(code, lints),
{
    if all_ascii(lints) {
        lemma_ascii_outcome(code, lints, outcome);
    }
}

/// What the lints find and give to note, given for each whether its
/// pattern source has compiled, is something that linting may come to;
/// and with pattern sources of ASCII characters it is the one thing.
pub proof fn lemma_linting_found(
    code: Seq<u8>,
    lints: Seq<(Seq<char>, Seq<char>)>,
    compiled: Seq<bool>,
    outcome: Result<Seq<MatchView>, ErrorView>,
    warnings: Seq<LintWarning>,
)
    requires
        admitted(lints, compiled),
        outcome == lint_result_with(code, lints, compiled),
        warnings == warnings_with(code, lints, compiled),
    ensures
        linting_of(code, lints, outcome, warnings),
        all_ascii(lints) ==> outcome == lint_result(code, lints) && warnings == lint_warnings(
            code,
            lints,
        ),
{
    if all_ascii(lints) {
        assert(compiled =~= compiles_of(lints));
    }
}

/// With pattern sources of ASCII characters, linting can only come to
/// one thing.
pub proof fn lemma_ascii_outcome(
    code: Seq<u8>,
    lints: Seq<(Seq<char>, Seq<char>)>,
    outcome: Result<Seq<MatchView>, ErrorView>,
)
    requires
        all_ascii(lints),
        lint_outcome_of(code, lints, outcome),
    ensures
        outcome == lint_result(code, lints),
{
    let compiled = choose|compiled: Seq<bool>| #[trigger]
        admitted(lints, compiled) && outcome == lint_result_with(code, lints, compiled);
    assert(compiled =~= compiles_of(lints));
}

/// A comment that disables a lint does so for every capture that it
/// stands before, be it right before the captured node or right
/// before an ancestor of it at any depth: such a capture is not
/// reported, and linting comes to what it would have come to without
/// the capture.
pub proof fn law_directive_suppresses(
    captures: Seq<CaptureView>,
    code: Seq<u8>,
    lint_name: Seq<char>,
    message: Seq<char>,
    at: int,
    level: int,
)
    requires
        0 <= at < captures.len(),
        0 <= level < captures[at].lineage.len(),
        sibling_disables(captures[at].lineage[level], code, lint_name),
    ensures
        reported(captures[at], code, lint_name, message) is None,
        surviving(captures, code, lint_name, message) == surviving(
            captures.remove(at),
            code,
            lint_name,
            message,
        ),
{
    let report = |c: CaptureView| reported(c, code, lint_name, message);
    let others = captures.remove(at);
    lemma_filter_map_skips(captures, report, at);
    if exists|i: int|
        0 <= i < captures.len() && lacks_message(#[trigger] captures[i], code, lint_name) {
        let i = choose|i: int|
            0 <= i < captures.len() && lacks_message(#[trigger] captures[i], code, lint_name);
        if i < at {
            assert(lacks_message(others[i], code, lint_name));
        } else {
            assert(lacks_message(others[i - 1], code, lint_name));
        }
    }
    if exists|i: int|
        0 <= i < others.len() && lacks_message(#[trigger] others[i], code, lint_name) {
        let i = choose|i: int|
            0 <= i < others.len() && lacks_message(#[trigger] others[i], code, lint_name);
        if i < at {
            assert(lacks_message(captures[i], code, lint_name));
        } else {
            assert(lacks_message(captures[i + 1], code, lint_name));
        }
    }
}

/// An entry that a filter drops may as well be left out before.
pub proof fn lemma_filter_map_skips<A, B>(s: Seq<A>, f: spec_fn(A) -> Option<B>, at: int)
    requires
        0 <= at < s.len(),
        f(s[at]) is None,
    ensures
        s.filter_map(f) == s.remove(at).filter_map(f),
    decreases s.len(),
{
    if at == s.len() - 1 {
        assert(s.remove(at) =~= s.drop_last());
    } else {
        lemma_filter_map_skips(s.drop_last(), f, at);
        assert(s.remove(at).drop_last() =~= s.drop_last().remove(at));
    }
}

/// An error with the first lints is an error with all of them.
pub proof fn lemma_first_error_ends(
    code: Seq<u8>,
    lints: Seq<(Seq<char>, Seq<char>)>,
    compiled: Seq<bool>,
    count: int,
)
    requires
        0 <= count <= lints.len(),
        lint_all_with(code, lints.take(count), compiled) is Err,
    ensures
        lint_all_with(code, lints, compiled) == lint_all_with(code, lints.take(count), compiled),
        lint_warnings_with(code, lints, compiled) == lint_warnings_with(
            code,
            lints.take(count),
            compiled,
        ),
    decreases lints.len() - count,
{
    if count < lints.len() {
        assert(lints.take(count + 1).drop_last() =~= lints.take(count));
        lemma_first_error_ends(code, lints, compiled, count + 1);
    } else {
        assert(lints.take(count) =~= lints);
    }
}

/// What the lints find depends on whether their own pattern sources
/// have compiled, and on nothing that is said of further lints.
pub proof fn lemma_compiled_so_far(
    code: Seq<u8>,
    lints: Seq<(Seq<char>, Seq<char>)>,
    compiled: Seq<bool>,
    other: Seq<bool>,
)
    requires
        forall|i: int| 0 <= i < lints.len() ==> compiled[i] == other[i],
    ensures
        lint_all_with(code, lints, compiled) == lint_all_with(code, lints, other),
        lint_warnings_with(code, lints, compiled) == lint_warnings_with(code, lints, other),
    decreases lints.len(),
{
    if lints.len() > 0 {
        lemma_compiled_so_far(code, lints.drop_last(), compiled, other);
    }
}

/// The first property with the key `message` decides.
pub proof fn lemma_message_setting(settings: Seq<(Seq<char>, Option<Seq<char>>)>, at: int)
    requires
        0 <= at <= settings.len(),
        forall|j: int| 0 <= j < at ==> (#[trigger] settings[j]).0 != "message"@,
    ensures
        at < settings.len() && settings[at].0 == "message"@ ==> message_setting(settings) == Some(
            settings[at].1,
        ),
        at == settings.len() ==> message_setting(settings) is None,
    decreases settings.len(),
{
    if at > 0 {
        let rest = settings.drop_first();
        assert forall|j: int| 0 <= j < at - 1 implies (#[trigger] rest[j]).0 != "message"@ by {
            assert(rest[j] == settings[j + 1]);
        }
        lemma_message_setting(rest, at - 1);
    }
}

/// Check whether two strings hold the same text.
pub fn same_str(a: &str, b: &str) -> (same: bool)
    ensures
        same == (a@ == b@),
{
    let a = chars_of(a);
    let b = chars_of(b);
    same_text(a.as_slice(), b.as_slice())
}

/// Walk the syntax tree, checking if a comment node that disable the
/// given lint is present.
pub fn is_lint_disabled(lint_name: &str, node: tree_sitter::Node, code: &[u8]) -> (disabled: bool)
    ensures
        disabled == lint_disabled(node_lineage(node), code@, lint_name@),
{
    let mut warnings: Vec<LintWarning> = Vec::new();
    find_directive(lint_name, node, code, &mut warnings)
}

/// Walk the syntax tree, checking if a comment node that disable the
/// given lint is present, and noting the comments on the way that
/// cannot be considered because they are no UTF-8.
pub fn find_directive(
    lint_name: &str,
    node: tree_sitter::Node,
    code: &[u8],
    warnings: &mut Vec<LintWarning>,
) -> (disabled: bool)
    ensures
        disabled == lint_disabled(node_lineage(node), code@, lint_name@),
        final(warnings)@ == old(warnings)@ + walk_warnings(node_lineage(node), code@, lint_name@),
{
    let ghost lineage = node_lineage(node);
    let ghost mut level: int = 0;
    let name = chars_of(lint_name);
    let mut current = node;
    assert(lineage.skip(0) =~= lineage);
    loop
        invariant
            lineage == node_lineage(node),
            name@ == lint_name@,
            0 <= level <= lineage.len(),
            node_lineage(current) == lineage.skip(level),
            forall|j: int|
                0 <= j < level ==> !sibling_disables(#[trigger] lineage[j], code@, lint_name@),
            warnings@ + walk_warnings(lineage.skip(level), code@, lint_name@) == old(warnings)@
                + walk_warnings(lineage, code@, lint_name@),
        decreases node_lineage(current).len(),
    {
        let ghost noted = warnings@;
        let ghost rest = lineage.skip(level);
        // Look at the sibling right before the current node.
        let sibling = preceding_sibling(&current);
        assert(rest[0] == lineage[level]);
        assert(rest.drop_first() =~= lineage.skip(level + 1));
        if let Some(s) = sibling {
            if same_str(s.kind, "comment") && s.start_byte <= s.end_byte && s.end_byte
                <= code.len() {
                let comment = slice_subrange(code, s.start_byte, s.end_byte);
                match utf8_text(comment) {
                    Some(text) => {
                        // The comment node will still contain the
                        // actual comment syntax.
                        let text = chars_of(text);
                        if directive_disables(text.as_slice(), name.as_slice()) {
                            assert(sibling_disables(lineage[level], code@, lint_name@));
                            assert(warnings@ + Seq::<LintWarning>::empty() =~= warnings@);
                            return true;
                        }
                    },
                    None => {
                        // If it's not valid UTF-8 it can't be a comment
                        // for us to consider.
                        warnings.push(
                            LintWarning::InvalidComment {
                                start_byte: s.start_byte,
                                end_byte: s.end_byte,
                            },
                        );
                    },
                }
            }
        }
        assert(!sibling_disables(lineage[level], code@, lint_name@));
        assert(warnings@ =~= noted + sibling_warnings(lineage[level], code@));
        assert(warnings@ + walk_warnings(rest.drop_first(), code@, lint_name@) =~= noted
            + walk_warnings(rest, code@, lint_name@));

        // Move one level up and repeat.
        match parent_of(&current) {
            Some(parent) => {
                proof {
                    level = level + 1;
                }
                current = parent;
            },
            None => {
                assert(rest.drop_first().len() == 0);
                assert(warnings@ + Seq::<LintWarning>::empty() =~= warnings@);
                return false;
            },
        }
    }
}

/// Find the message among the properties that a lint's pattern sets.
pub fn message_of(settings: &Vec<Setting>, lint_name: &str) -> (message: Result<
    String,
    LintError,
>)
    ensures
        match message_setting(settings@.map_values(|s: Setting| s@)) {
            None => message matches Err(e) && e@ == ErrorView::MissingMessage(lint_name@),
            Some(None) => message matches Err(e) && e@ == ErrorView::MissingValue(lint_name@),
            Some(Some(text)) => message matches Ok(m) && m@ == text,
        },
{
    let ghost views = settings@.map_values(|s: Setting| s@);
    let mut at: usize = 0;
    while at < settings.len()
        invariant
            at <= settings@.len(),
            views == settings@.map_values(|s: Setting| s@),
            forall|j: int| 0 <= j < at ==> (#[trigger] views[j]).0 != "message"@,
        decreases settings@.len() - at,
    {
        let setting = &settings[at];
        if same_str(setting.key.as_str(), "message") {
            proof {
                lemma_message_setting(views, at as int);
            }
            return match &setting.value {
                Some(value) => Ok(value.clone()),
                None => Err(LintError::MissingValue { lint_name: lint_name.to_owned() }),
            };
        }
        at = at + 1;
    }
    proof {
        lemma_message_setting(views, at as int);
    }
    Err(LintError::MissingMessage { lint_name: lint_name.to_owned() })
}

/// Run a compiled lint pattern over a syntax tree and the source code
/// it was made of, adding to `warnings` what there is to note.
pub fn lint_query(
    query: &tree_sitter::Query,
    tree: &tree_sitter::Tree,
    code: &[u8],
    lint_name: &str,
    warnings: &mut Vec<LintWarning>,
) -> (outcome: Result<Vec<LintMatch>, LintError>)
    requires
        tree_text(*tree) == code@,
    ensures
        outcome_view(outcome) == query_outcome(code@, lint_name@, query_text(*query)),
        pattern_message(lint_name@, query_text(*query)) matches Ok(message) ==> outcome_view(
            outcome,
        ) == Ok::<Seq<MatchView>, ErrorView>(
            query_captures(code@, query_text(*query)).filter_map(
                |c: CaptureView| reported(c, code@, lint_name@, message),
            ),
        ),
        final(warnings)@ == old(warnings)@ + query_warnings(
            code@,
            lint_name@,
            query_text(*query),
        ),
{
    let ghost source = query_text(*query);
    if pattern_count(query) != 1 {
        assert(warnings@ + Seq::<LintWarning>::empty() =~= warnings@);
        return Err(LintError::PatternCount { lint_name: lint_name.to_owned() });
    }
    let settings = pattern_settings(query, 0);
    let message = match message_of(&settings, lint_name) {
        Ok(message) => message,
        Err(error) => {
            assert(warnings@ + Seq::<LintWarning>::empty() =~= warnings@);
            return Err(error);
        },
    };

    let (captures, limit_exceeded) = run_query(query, tree, code);
    let ghost found = query_captures(code@, source);
    let ghost report = |c: CaptureView| reported(c, code@, lint_name@, message@);
    let mut results: Vec<LintMatch> = Vec::new();
    let mut at: usize = 0;
    assert(warnings@ + capture_warnings(found.take(0), code@, lint_name@) =~= warnings@);
    while at < captures.len()
        invariant
            at <= captures@.len(),
            source == query_text(*query),
            captures@.map_values(|c: Capture| c@) == found,
            found == query_captures(code@, source),
            forall|i: int| 0 <= i < captures@.len() ==> (#[trigger] captures@[i]).pattern == 0,
            pattern_message(lint_name@, source) == Ok::<Seq<char>, ErrorView>(message@),
            report == |c: CaptureView| reported(c, code@, lint_name@, message@),
            match_views(results@) == found.take(at as int).filter_map(report),
            forall|j: int| 0 <= j < at ==> !lacks_message(#[trigger] found[j], code@, lint_name@),
            warnings@ == old(warnings)@ + capture_warnings(
                found.take(at as int),
                code@,
                lint_name@,
            ),
        decreases captures@.len() - at,
    {
        let capture = &captures[at];
        assert(found.take(at + 1).drop_last() =~= found.take(at as int));
        assert(found.take(at + 1).last() == capture@);
        if !find_directive(lint_name, capture.node, code, warnings) {
            // The message is that of the one pattern that the query
            // holds; a capture of another pattern has none.
            if capture.pattern != 0 {
                return Err(LintError::MissingMessage { lint_name: lint_name.to_owned() });
            }
            let found_match = LintMatch {
                lint_name: lint_name.to_owned(),
                message: message.clone(),
                range: range_of(&capture.node),
            };
            results.push(found_match);
            assert(match_views(results@) =~= found.take(at as int).filter_map(report) + seq![
                found_match@,
            ]);
        }
        assert(warnings@ =~= old(warnings)@ + capture_warnings(
            found.take(at + 1),
            code@,
            lint_name@,
        ));
        at = at + 1;
    }
    assert(found.take(at as int) =~= found);

    if limit_exceeded {
        warnings.push(LintWarning::MatchLimit);
    }
    assert(warnings@ =~= old(warnings)@ + query_warnings(code@, lint_name@, source));
    Ok(results)
}

/// Run one lint over a syntax tree and the source code it was made of,
/// adding to `warnings` what there is to note.
///
/// Whether the pattern source compiles is known beforehand where it is
/// made of ASCII characters; of other pattern sources the compiler
/// decides, and the lint fails or finds what the compiled pattern
/// finds.
pub(crate) fn lint_impl(
    tree: &tree_sitter::Tree,
    code: &[u8],
    lint_src: &str,
    lint_name: &str,
    warnings: &mut Vec<LintWarning>,
) -> (outcome: Result<Vec<LintMatch>, LintError>)
    requires
        tree_text(*tree) == code@,
    ensures
        ({
            &&& outcome_view(outcome) == lint_step(code@, lint_name@, lint_src@, true)
            &&& final(warnings)@ == old(warnings)@ + step_warnings(
                code@,
                lint_name@,
                lint_src@,
                true,
            )
        }) || ({
            &&& outcome_view(outcome) == lint_step(code@, lint_name@, lint_src@, false)
            &&& final(warnings)@ == old(warnings)@ + step_warnings(
                code@,
                lint_name@,
                lint_src@,
                false,
            )
        }),
        is_ascii_chars(lint_src@) ==> outcome_view(outcome) == lint_outcome(
            code@,
            lint_name@,
            lint_src@,
        ),
{
    match compile_query(lint_src) {
        Ok(query) => lint_query(&query, tree, code, lint_name, warnings),
        Err(source) => {
            assert(warnings@ + Seq::<LintWarning>::empty() =~= warnings@);
            Err(LintError::Query { lint_name: lint_name.to_owned(), source })
        },
    }
}

/// Lint code using the given lints, each a name and a pattern, and
/// hand out with the matches, or the error, what there is to note.
///
/// Matches are reported in source code order.
pub fn lint_multi_with_warnings(code: &[u8], lints: &[(&str, &str)]) -> (linting: (
    Result<Vec<LintMatch>, LintError>,
    Vec<LintWarning>,
))
    ensures
        linting_of(code@, definition_views(lints@), outcome_view(linting.0), linting.1@),
        all_ascii(definition_views(lints@)) ==> {
            &&& outcome_view(linting.0) == lint_result(code@, definition_views(lints@))
            &&& linting.1@ == lint_warnings(code@, definition_views(lints@))
        },
{
    let ghost definitions = definition_views(lints@);
    let ghost mut compiled = compiles_of(definitions);
    let mut warnings: Vec<LintWarning> = Vec::new();
    let tree = match parse_source(code) {
        Ok(Some(tree)) => tree,
        Ok(None) => {
            proof {
                lemma_linting_found(
                    code@,
                    definitions,
                    compiled,
                    Err(ErrorView::Parse),
                    warnings@,
                );
            }
            return (Err(LintError::Parse), warnings);
        },
        Err(source) => {
            proof {
                lemma_linting_found(
                    code@,
                    definitions,
                    compiled,
                    Err(ErrorView::Language),
                    warnings@,
                );
            }
            return (Err(LintError::Language { source }), warnings);
        },
    };
    let mut results: Vec<LintMatch> = Vec::new();
    let mut at: usize = 0;
    assert(match_views(results@) =~= Seq::empty());
    while at < lints.len()
        invariant
            at <= lints@.len(),
            definitions == definition_views(lints@),
            tree_text(tree) == code@,
            parse_status(code@) is Parsed,
            admitted(definitions, compiled),
            lint_all_with(code@, definitions.take(at as int), compiled) == Ok::<
                Seq<MatchView>,
                ErrorView,
            >(match_views(results@)),
            warnings@ == lint_warnings_with(code@, definitions.take(at as int), compiled),
        decreases lints@.len() - at,
    {
        let (lint_name, lint_src) = lints[at];
        let ghost before = match_views(results@);
        let found = lint_impl(&tree, code, lint_src, lint_name, &mut warnings);
        proof {
            // Whether the pattern source has compiled shows in what the
            // lint came to.
            let so_far = compiled;
            compiled = compiled.update(
                at as int,
                outcome_view(found) == lint_step(code@, lint_name@, lint_src@, true),
            );
            lemma_compiled_so_far(code@, definitions.take(at as int), so_far, compiled);
            assert(definitions.take(at + 1).drop_last() =~= definitions.take(at as int));
            assert(definitions[at as int] == (lint_name@, lint_src@));
            assert(warnings@ == lint_warnings_with(code@, definitions.take(at + 1), compiled));
        }
        match found {
            Ok(mut matches) => {
                let ghost more = match_views(matches@);
                results.append(&mut matches);
                assert(match_views(results@) =~= before + more);
            },
            Err(error) => {
                proof {
                    lemma_first_error_ends(code@, definitions, compiled, at + 1);
                    lemma_linting_found(code@, definitions, compiled, Err(error@), warnings@);
                }
                return (Err(error), warnings);
            },
        }
        at = at + 1;
    }
    assert(definitions.take(at as int) =~= definitions);

    // Sort results to ensure more consistent reporting with ascending
    // lines.
    let sorted = sort_matches(results);
    proof {
        lemma_linting_found(code@, definitions, compiled, Ok(match_views(sorted@)), warnings@);
    }
    (Ok(sorted), warnings)
}

/// Lint code using the given lints, each a name and a pattern.
///
/// Matches are reported in source code order.
pub fn lint_multi(code: &[u8], lints: &[(&str, &str)]) -> (outcome: Result<
    Vec<LintMatch>,
    LintError,
>)
    ensures
        lint_outcome_of(code@, definition_views(lints@), outcome_view(outcome)),
        all_ascii(definition_views(lints@)) ==> outcome_view(outcome) == lint_result(
            code@,
            definition_views(lints@),
        ),
{
    let (outcome, warnings) = lint_multi_with_warnings(code, lints);
    proof {
        let compiled = choose|compiled: Seq<bool>| #[trigger]
            admitted(definition_views(lints@), compiled) && outcome_view(outcome)
                == lint_result_with(code@, definition_views(lints@), compiled) && warnings@
                == warnings_with(code@, definition_views(lints@), compiled);
        lemma_outcome_found(code@, definition_views(lints@), compiled, outcome_view(outcome));
    }
    outcome
}

/// Lint code using the default set of lints, and hand out with the
/// matches, or the error, what there is to note.
///
/// Matches are reported in source code order.
pub fn lint_with_warnings(code: &[u8]) -> (linting: (
    Result<Vec<LintMatch>, LintError>,
    Vec<LintWarning>,
))
    ensures
        outcome_view(linting.0) == lint_result(code@, builtin_definitions()),
        linting.1@ == lint_warnings(code@, builtin_definitions()),
{
    let lints = lint_definitions();
    proof {
        law_builtin_patterns_are_ascii();
    }
    lint_multi_with_warnings(code, lints.as_slice())
}

/// Lint code using the default set of lints.
///
/// Matches are reported in source code order.
///
/// - `code` is the source code in question, for example as read from a
///   file
pub fn lint(code: &[u8]) -> (outcome: Result<Vec<LintMatch>, LintError>)
    ensures
        outcome_view(outcome) == lint_result(code@, builtin_definitions()),
{
    let (outcome, _warnings) = lint_with_warnings(code);
    outcome
}

/// Retrieve the list of lints shipped with the library.
pub fn builtin_lints() -> (lints: Vec<LintMeta>)
    ensures
        lints@.map_values(|lint: LintMeta| lint.name@) == builtin_names(),
{
    let definitions = lint_definitions();
    let ghost names = definition_views(definitions@).map_values(
        |lint: (Seq<char>, Seq<char>)| lint.0,
    );
    let mut lints: Vec<LintMeta> = Vec::new();
    let mut at: usize = 0;
    while at < definitions.len()
        invariant
            at <= definitions@.len(),
            names == definition_views(definitions@).map_values(
                |lint: (Seq<char>, Seq<char>)| lint.0,
            ),
            lints@.len() == at,
            forall|j: int| 0 <= j < at ==> (#[trigger] lints@[j]).name@ == names[j],
        decreases definitions@.len() - at,
    {
        let (name, _code) = definitions[at];
        lints.push(LintMeta { name: name.to_owned() });
        at = at + 1;
    }
    proof {
        assert(lints@.map_values(|lint: LintMeta| lint.name@) =~= names);
        law_builtin_names();
    }
    lints
}

} // verus!
