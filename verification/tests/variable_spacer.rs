use ghafmt::presentation_transformers::variable_spacer::{
    space_variables, EmitEvent, VariableSpacer, WriteType,
};

fn ev(write_type: WriteType, content: &str) -> EmitEvent {
    EmitEvent { write_type, content: content.to_string() }
}

fn run(events: Vec<EmitEvent>) -> Vec<EmitEvent> {
    VariableSpacer.process(events).expect("the expression pattern compiles")
}

#[test]
fn test_variable_spacer_already_spaced() {
    assert_eq!(
        run(vec![ev(WriteType::PlainScalar, "${{ github.ref }}")]),
        vec![ev(WriteType::PlainScalar, "${{ github.ref }}")]
    );
}

#[test]
fn test_variable_spacer_no_spaces() {
    assert_eq!(
        run(vec![ev(WriteType::PlainScalar, "${{github.ref}}")]),
        vec![ev(WriteType::PlainScalar, "${{ github.ref }}")]
    );
}

#[test]
fn test_variable_spacer_extra_spaces() {
    assert_eq!(
        run(vec![ev(WriteType::PlainScalar, "${{  github.ref  }}")]),
        vec![ev(WriteType::PlainScalar, "${{ github.ref }}")]
    );
}

#[test]
fn test_variable_spacer_mixed_spacing() {
    assert_eq!(
        run(vec![ev(WriteType::PlainScalar, "${{github.ref }}")]),
        vec![ev(WriteType::PlainScalar, "${{ github.ref }}")]
    );
}

#[test]
fn test_variable_spacer_multiple_variables() {
    assert_eq!(
        run(vec![ev(WriteType::PlainScalar, "${{a}}-${{b}}")]),
        vec![ev(WriteType::PlainScalar, "${{ a }}-${{ b }}")]
    );
}

#[test]
fn test_variable_spacer_double_quoted_scalar() {
    assert_eq!(
        run(vec![ev(WriteType::DoubleQuotedScalar, "${{github.ref}}")]),
        vec![ev(WriteType::DoubleQuotedScalar, "${{ github.ref }}")]
    );
}

#[test]
fn test_variable_spacer_single_quoted_scalar() {
    assert_eq!(
        run(vec![ev(WriteType::SingleQuotedScalar, "${{github.ref}}")]),
        vec![ev(WriteType::SingleQuotedScalar, "${{ github.ref }}")]
    );
}

#[test]
fn test_variable_spacer_literal_scalar() {
    assert_eq!(
        run(vec![ev(WriteType::LiteralScalar, "${{github.ref}}")]),
        vec![ev(WriteType::LiteralScalar, "${{ github.ref }}")]
    );
}

#[test]
fn test_variable_spacer_folded_scalar() {
    assert_eq!(
        run(vec![ev(WriteType::FoldedScalar, "${{github.ref}}")]),
        vec![ev(WriteType::FoldedScalar, "${{ github.ref }}")]
    );
}

#[test]
fn test_variable_spacer_non_scalar_untouched() {
    assert_eq!(
        run(vec![ev(WriteType::Comment, "# ${{github.ref}}")]),
        vec![ev(WriteType::Comment, "# ${{github.ref}}")]
    );
}

#[test]
fn test_variable_spacer_indicator_untouched() {
    assert_eq!(run(vec![ev(WriteType::Indicator, ":")]), vec![ev(WriteType::Indicator, ":")]);
}

#[test]
fn test_variable_spacer_no_variable() {
    assert_eq!(
        run(vec![ev(WriteType::PlainScalar, "just plain text")]),
        vec![ev(WriteType::PlainScalar, "just plain text")]
    );
}

#[test]
fn test_variable_spacer_expression_with_function() {
    assert_eq!(
        run(vec![ev(WriteType::PlainScalar, "${{contains(github.ref, 'main')}}")]),
        vec![ev(WriteType::PlainScalar, "${{ contains(github.ref, 'main') }}")]
    );
}

#[test]
fn test_variable_spacer_scalar_key_untouched() {
    assert_eq!(
        run(vec![ev(WriteType::PlainScalarKey, "${{github.ref}}")]),
        vec![ev(WriteType::PlainScalarKey, "${{github.ref}}")]
    );
}

#[test]
fn test_variable_spacer_mixed_stream_keeps_order() {
    let input = vec![
        ev(WriteType::PlainScalarKey, "if"),
        ev(WriteType::Indicator, ":"),
        ev(WriteType::PlainScalar, "${{github.event_name}}"),
        ev(WriteType::Linebreak, "\n"),
    ];
    let expected = vec![
        ev(WriteType::PlainScalarKey, "if"),
        ev(WriteType::Indicator, ":"),
        ev(WriteType::PlainScalar, "${{ github.event_name }}"),
        ev(WriteType::Linebreak, "\n"),
    ];
    assert_eq!(run(input), expected);
}

#[test]
fn test_space_variables_rewrites_text() {
    assert_eq!(space_variables("run ${{ matrix.os}} now").unwrap(), "run ${{ matrix.os }} now");
}

#[test]
fn test_variable_spacer_description() {
    assert_eq!(VariableSpacer.description(), "Ensure correct spacing around variables");
}
