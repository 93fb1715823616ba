use pmd::reference::{parse_reference, ReferenceDefinition, ReferenceError};
use pmd::structs::{ParseUnitError, Unit};
use std::str::FromStr;

#[test]
fn record_with_fields() {
    let text = "£baudrillard {\n    title: Simulacra and Simulation,\n    author: Jean Baudrillard,\n    year: 1994\n\n    note: a: b,\n}";
    assert_eq!(
        parse_reference(text),
        Ok(ReferenceDefinition {
            id: "baudrillard".into(),
            fields: vec![
                ("title".into(), "Simulacra and Simulation".into()),
                ("author".into(), "Jean Baudrillard".into()),
                ("year".into(), "1994".into()),
                ("note".into(), "a: b".into()),
            ]
        })
    );
}

#[test]
fn record_without_fields() {
    assert_eq!(
        parse_reference("£a{}"),
        Ok(ReferenceDefinition { id: "a".into(), fields: vec![] })
    );
}

#[test]
fn records_that_are_none() {
    assert_eq!(parse_reference(""), Err(ReferenceError::MissingSigil));
    assert_eq!(parse_reference("a {}"), Err(ReferenceError::MissingSigil));
    assert_eq!(parse_reference("£a"), Err(ReferenceError::MissingBrace));
    assert_eq!(parse_reference("£a {"), Err(ReferenceError::MissingBrace));
    assert_eq!(parse_reference("£ {}"), Err(ReferenceError::MissingId));
    assert_eq!(parse_reference("£a {\n no colon\n}"), Err(ReferenceError::BadField));
    assert_eq!(parse_reference("£a {\n : no key\n}"), Err(ReferenceError::BadField));
}

#[test]
fn lengths() {
    assert_eq!(Unit::parse("12px"), Ok(Unit::Px(12)));
    assert_eq!(Unit::parse("0%"), Ok(Unit::Percentage(0)));
    assert_eq!(Unit::parse("3cqmax"), Ok(Unit::Cqmax(3)));
    assert_eq!(Unit::parse("7q"), Ok(Unit::Q(7)));
    assert_eq!(Unit::from_str("100vmax"), Ok(Unit::Vmax(100)));
    assert_eq!(Unit::parse("px"), Err(ParseUnitError::NotANumber));
    assert_eq!(Unit::parse(""), Err(ParseUnitError::NotANumber));
    assert_eq!(Unit::parse("-1px"), Err(ParseUnitError::NotANumber));
    assert_eq!(
        Unit::parse("99999999999999999999999999999px"),
        Err(ParseUnitError::NotANumber)
    );
    assert_eq!(Unit::parse("12"), Err(ParseUnitError::NotAUnit));
    assert_eq!(Unit::parse("12 px"), Err(ParseUnitError::NotAUnit));
    assert_eq!(Unit::parse("12PX"), Err(ParseUnitError::NotAUnit));
}

#[test]
fn lengths_as_text() {
    assert_eq!(Unit::Px(12).to_string(), "12px");
    assert_eq!(Unit::Percentage(100).to_string(), "100%");
    assert_eq!(Unit::Em(0).to_string(), "0em");
    assert_eq!(Unit::Rem(-15).to_string(), "-15rem");
    assert_eq!(Unit::Vh(isize::MIN).to_string(), format!("{}vh", isize::MIN));
    assert_eq!(Unit::parse(&Unit::Cqmin(904).to_string()), Ok(Unit::Cqmin(904)));
    assert_eq!(ParseUnitError::NotANumber.to_string(), "not a number");
    assert_eq!(ParseUnitError::NotAUnit.to_string(), "not a unit");
}
