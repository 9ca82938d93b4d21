use portable_git::parsers::{AsHashKind, AsOutputFormat, AsRange, HashKind, OutputFormat,
    ParseRenameFraction};

#[test]
fn rename_fraction() {
    let c = ParseRenameFraction::parse("50%");
    assert_eq!(c, Some((50, 100)));
    assert_eq!(50 as f32 / 100 as f32, 0.5, "percentages become a fraction");

    let c = ParseRenameFraction::parse("100%");
    assert_eq!(c, Some((100, 100)));
    assert_eq!(100 as f32 / 100 as f32, 1.0);

    let c = ParseRenameFraction::parse("5");
    assert_eq!(c, Some((5, 10)), "another way to specify fractions");
    assert_eq!(5 as f32 / 10 as f32, 0.5);

    let c = ParseRenameFraction::parse("75");
    assert_eq!(c, Some((75, 100)));
    assert_eq!(75 as f32 / 100 as f32, 0.75);
}

#[test]
fn range() {
    let c = AsRange::parse("1,10");
    assert_eq!(c, Some((1, 10)));
}

#[test]
fn rename_fraction_rejects() {
    assert_eq!(ParseRenameFraction::parse(""), None);
    assert_eq!(ParseRenameFraction::parse("%"), None);
    assert_eq!(ParseRenameFraction::parse("a%"), None);
    assert_eq!(ParseRenameFraction::parse("12x"), None);
    assert_eq!(ParseRenameFraction::parse("4294967296"), None);
}

#[test]
fn range_rejects() {
    assert_eq!(AsRange::parse("10,1"), None);
    assert_eq!(AsRange::parse("5"), None);
    assert_eq!(AsRange::parse("a,b"), None);
    assert_eq!(AsRange::parse(",5"), None);
}

#[test]
fn hash_kind_names() {
    assert_eq!(AsHashKind::parse("SHA1"), Some(HashKind::Sha1));
    assert_eq!(AsHashKind::parse("sha1"), Some(HashKind::Sha1));
    assert_eq!(AsHashKind::parse("sha256"), None);
}

#[test]
fn output_format_names() {
    assert_eq!(AsOutputFormat::parse("human"), Some(OutputFormat::Human));
    assert_eq!(AsOutputFormat::parse("json"), Some(OutputFormat::Json));
    assert_eq!(AsOutputFormat::parse("yaml"), None);
}
