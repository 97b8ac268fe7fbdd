//! Normalizes spacing inside `${{ ... }}` expressions in the emitted event stream.
use vstd::prelude::*;

verus! {

/// What a chunk of emitted output is.
#[derive(Clone, Copy, Debug, PartialEq, Eq)]
pub enum WriteType {
    DocumentIndicator,
    TagDirective,
    VersionDirective,
    Indent,
    Indicator,
    Whitespace,
    PlainScalar,
    SingleQuotedScalar,
    DoubleQuotedScalar,
    LiteralScalar,
    FoldedScalar,
    Anchor,
    Tag,
    Linebreak,
    Alias,
    TerminatingZero,
    PlainScalarKey,
    SingleQuotedScalarKey,
    DoubleQuotedScalarKey,
    Comment,
}

/// One chunk of emitted output.
#[derive(Debug, PartialEq, Eq)]
pub struct EmitEvent {
    pub write_type: WriteType,
    pub content: String,
}

impl View for EmitEvent {
    type V = (WriteType, Seq<char>);

    open spec fn view(&self) -> (WriteType, Seq<char>) {
        (self.write_type, self.content@)
    }
}

/// Why respacing could not be done.
#[derive(Clone, Copy, Debug, PartialEq, Eq)]
pub enum SpacingError {
    /// The regular expression engine refused the expression pattern.
    InvalidPattern,
}

/// The error of `regex::Regex::new`, carried through unopened.
#[verifier::external_type_specification]
#[verifier::external_body]
pub struct ExRegexError(regex::Error);

/// A `${{ ... }}` expression, capturing its content without the surrounding
/// whitespace.
pub const VARIABLE_PATTERN: &'static str = r"\$\{\{\s*(.*?)\s*}}";

/// The expression written back with exactly one space inside each brace pair.
pub const VARIABLE_REPLACEMENT: &'static str = "$${{ $1 }}";

/// Whether `regex::Regex::new` accepts `pattern`.
pub uninterp spec fn regex_compiles(pattern: Seq<char>) -> bool;

/// What `regex::Regex::replace_all` returns for the regex compiled from
/// `pattern`, applied to `haystack` with `replacement`.
pub uninterp spec fn regex_replace_all(
    pattern: Seq<char>,
    haystack: Seq<char>,
    replacement: Seq<char>,
) -> Seq<char>;

/// Compiles `pattern` with `regex::Regex::new` and, when that succeeds, calls
/// `Regex::replace_all` on `haystack` with `replacement`. Trusted: compilation
/// depends on the pattern alone, and the replaced text on the pattern, the
/// haystack and the replacement alone; neither is stated beyond that.
#[verifier::external_body]
fn replace_all_matches(pattern: &str, haystack: &str, replacement: &str) -> (r: Result<
    String,
    regex::Error,
>)
    ensures
        r is Ok <==> regex_compiles(pattern@),
        r matches Ok(s) ==> s@ == regex_replace_all(pattern@, haystack@, replacement@),
{
    match regex::Regex::new(pattern) {
        Ok(re) => Ok(re.replace_all(haystack, replacement).into_owned()),
        Err(e) => Err(e),
    }
}

/// Whether a chunk of this type is scalar text whose expressions are respaced.
pub open spec fn is_scalar_write(t: WriteType) -> bool {
    match t {
        WriteType::PlainScalar | WriteType::DoubleQuotedScalar | WriteType::SingleQuotedScalar
        | WriteType::LiteralScalar | WriteType::FoldedScalar => true,
        _ => false,
    }
}

/// Scalar text with every `${{ ... }}` expression respaced.
pub open spec fn spaced(content: Seq<char>) -> Seq<char> {
    regex_replace_all(VARIABLE_PATTERN@, content, VARIABLE_REPLACEMENT@)
}

/// An event with its expressions respaced, if it is scalar text.
pub open spec fn respaced(e: (WriteType, Seq<char>)) -> (WriteType, Seq<char>) {
    if is_scalar_write(e.0) {
        (e.0, spaced(e.1))
    } else {
        e
    }
}

/// Respacing replaces, over the whole of any scalar text whatever its length,
/// every match of the expression pattern by the replacement; other chunks keep
/// their text, and no chunk changes its type.
pub proof fn law_respacing_replaces_in_whole_text(e: (WriteType, Seq<char>))
    ensures
        respaced(e).0 == e.0,
        is_scalar_write(e.0) ==> respaced(e).1 == regex_replace_all(
            VARIABLE_PATTERN@,
            e.1,
            VARIABLE_REPLACEMENT@,
        ),
        !is_scalar_write(e.0) ==> respaced(e).1 == e.1,
{
}

/// Rewrites every `${{ expr }}` in `content` to have exactly one space inside
/// each brace pair.
pub fn space_variables(content: &str) -> (r: Result<String, SpacingError>)
    ensures
        r is Ok <==> regex_compiles(VARIABLE_PATTERN@),
        r matches Ok(s) ==> s@ == spaced(content@),
        r matches Ok(s) ==> s@ == regex_replace_all(VARIABLE_PATTERN@, content@, VARIABLE_REPLACEMENT@),
{
    match replace_all_matches(VARIABLE_PATTERN, content, VARIABLE_REPLACEMENT) {
        Ok(s) => Ok(s),
        Err(_) => Err(SpacingError::InvalidPattern),
    }
}

/// Ensures every `${{ expr }}` expression has exactly one space inside each brace pair.
pub struct VariableSpacer;

impl VariableSpacer {
    /// Respaces the expressions in every scalar chunk of the stream; other
    /// chunks (comments, indicators, keys, ...) are passed through.
    pub fn process(&self, event_stream: Vec<EmitEvent>) -> (r: Result<Vec<EmitEvent>, SpacingError>)
        ensures
            r is Err <==> !regex_compiles(VARIABLE_PATTERN@) && exists|i: int|
                0 <= i < event_stream@.len() && is_scalar_write(#[trigger] event_stream@[i].write_type),
            r matches Ok(v) ==> v@.len() == event_stream@.len() && forall|i: int|
                0 <= i < v@.len() ==> #[trigger] v@[i]@ == respaced(event_stream@[i]@),
            r matches Ok(v) ==> forall|i: int|
                0 <= i < v@.len() ==> {
                    &&& #[trigger] v@[i].write_type == event_stream@[i].write_type
                    &&& is_scalar_write(event_stream@[i].write_type) ==> v@[i].content@
                        == regex_replace_all(
                        VARIABLE_PATTERN@,
                        event_stream@[i].content@,
                        VARIABLE_REPLACEMENT@,
                    )
                    &&& !is_scalar_write(event_stream@[i].write_type) ==> v@[i].content@
                        == event_stream@[i].content@
                },
    {
        let ghost input = event_stream@;
        let mut rest = event_stream;
        let mut out: Vec<EmitEvent> = Vec::new();
        let ghost mut i: int = 0;
        while rest.len() > 0
            invariant
                input == event_stream@,
                0 <= i <= input.len(),
                input.len() == i + rest@.len(),
                forall|j: int| 0 <= j < rest@.len() ==> #[trigger] rest@[j] == input[i + j],
                out@.len() == i,
                forall|j: int| 0 <= j < i ==> #[trigger] out@[j]@ == respaced(input[j]@),
                forall|j: int|
                    0 <= j < i ==> {
                        &&& #[trigger] out@[j].write_type == input[j].write_type
                        &&& is_scalar_write(input[j].write_type) ==> out@[j].content@
                            == regex_replace_all(
                            VARIABLE_PATTERN@,
                            input[j].content@,
                            VARIABLE_REPLACEMENT@,
                        )
                        &&& !is_scalar_write(input[j].write_type) ==> out@[j].content@
                            == input[j].content@
                    },
                forall|j: int| 0 <= j < i ==> !is_scalar_write(#[trigger] input[j].write_type)
                    || regex_compiles(VARIABLE_PATTERN@),
            decreases rest.len(),
        {
            let ghost old_rest = rest@;
            let ev = rest.remove(0);
            assert(ev == input[i]);
            assert forall|j: int| 0 <= j < rest@.len() implies #[trigger] rest@[j] == input[i + 1 + j] by {
                assert(rest@[j] == old_rest[j + 1]);
            }
            let next = match ev.write_type {
                WriteType::PlainScalar | WriteType::DoubleQuotedScalar
                | WriteType::SingleQuotedScalar | WriteType::LiteralScalar
                | WriteType::FoldedScalar => {
                    let content = space_variables(ev.content.as_str());
                    match content {
                        Ok(c) => EmitEvent { write_type: ev.write_type, content: c },
                        Err(err) => {
                            assert(is_scalar_write(event_stream@[i].write_type));
                            return Err(err);
                        },
                    }
                },
                _ => ev,
            };
            out.push(next);
            proof {
                i = i + 1;
            }
        }
        Ok(out)
    }

    pub fn description(&self) -> (r: &'static str)
        ensures
            r@ == "Ensure correct spacing around variables"@,
    {
        "Ensure correct spacing around variables"
    }
}

} // verus!
