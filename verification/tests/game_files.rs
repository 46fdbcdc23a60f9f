use vic3_analyzer::data::map::countries::Country as CountryDef;
use vic3_analyzer::data::map::laws::{Law, LawGroup};
use vic3_analyzer::data::save::countries::Country as SaveCountryData;
use vic3_analyzer::data::save::cultures::Culture as SaveCultureData;
use vic3_analyzer::data::save::states::State as SaveState;
use vic3_analyzer::data::save2::pops::Pop;
use vic3_analyzer::error::VicError;
use vic3_analyzer::map::cultures::Culture;
use vic3_analyzer::map::named_colors::NamedColor;
use vic3_analyzer::map::professions::Profession;
use vic3_analyzer::map::religions::Religion;
use vic3_analyzer::map::traits::Trait;
use vic3_analyzer::scanner::{DataFormat, GetMapData, MapIterator};
use vic3_analyzer::wrappers::{default_color, ColorSpec, ColorWrap};

fn file(s: &str) -> Vec<Vec<u8>> {
    vec![s.as_bytes().to_vec()]
}

fn first(text: &str) -> vic3_analyzer::scanner::DataStructure {
    MapIterator::new(text, DataFormat::Labeled).next().unwrap()
}

#[test]
fn laws_keep_their_group() {
    let laws = Law::new(&file("law_a = {\n group = lawgroup_x\n}\nlaw_b = {\n group = lawgroup_y\n}\n")).unwrap();
    assert_eq!(laws.len(), 2);
    assert_eq!(laws[1].name(), "law_b");
    // the group accessor gives the name back, as the game files were read
    assert_eq!(laws[0].group(), "law_a");
    let groups = LawGroup::new(&file("lawgroup_x = {\n law_group_category = economy\n}\n")).unwrap();
    assert_eq!(groups[0].name(), "lawgroup_x");
    assert_eq!(groups[0].category(), "lawgroup_x");
}

#[test]
fn comments_are_left_out() {
    let laws = Law::new(&file("# a comment = { }\nlaw_a = { # trailing\n group = g # more\n}\n")).unwrap();
    assert_eq!(laws.len(), 1);
    assert_eq!(laws[0].name(), "law_a");
}

#[test]
fn map_cultures_religions_and_professions() {
    let c = Culture::new(&file("french = {\n color = { 0.1 0.2 0.3 }\n religion = catholic\n traits = { a b }\n obsessions = { wine }\n}\n")).unwrap();
    assert_eq!(c[0].name(), "french");
    assert!(matches!(c[0].color(), ColorSpec::Rgb(_, _, _)));
    let r = Religion::new(&file("catholic = {\n traits = { christian }\n color = hsv { 0.1 0.2 0.3 }\n taboos = { }\n}\n")).unwrap();
    assert_eq!(r[0].name(), "catholic");
    assert!(matches!(r[0].color(), ColorSpec::Hsv(_, _, _)));
    let p = Profession::new(&file("laborers = {\n color = { 10 20 30 }\n strata = poor\n}\n")).unwrap();
    assert_eq!(p[0].strata(), "poor");
    let t = Trait::new(&file("brave = {\n heritage = yes\n}\n")).unwrap();
    assert_eq!(t[0].name(), "brave");
}

#[test]
fn named_colors_are_read_under_colors() {
    let n = NamedColor::new(&file("colors = {\n red = { 255 0 0 }\n sea = \"x0000FF\"\n}\n")).unwrap();
    assert_eq!(n.len(), 2);
    assert_eq!(n[1].name(), "sea");
    match n[1].color() {
        ColorSpec::Hex(c) => assert_eq!(c.unravel(), [0, 0, 255]),
        other => panic!("{:?}", other),
    }
}

#[test]
fn country_definitions_have_a_color() {
    let c = CountryDef::new(&file("GBR = {\n color = { 200 30 30 }\n}\n")).unwrap();
    assert_eq!(c[0].name(), "GBR");
}

#[test]
fn color_specs_by_form() {
    assert!(matches!(ColorSpec::parse("hsv360 { 30 50 50 }"), Ok(ColorSpec::Hsv360(_, _, _))));
    assert!(matches!(ColorSpec::parse("rgb { 1 2 3 }"), Ok(ColorSpec::Rgb(_, _, _))));
    assert!(matches!(ColorSpec::parse("x102030"), Ok(ColorSpec::Hex(ColorWrap::Rgb([16, 32, 48])))));
    assert!(matches!(ColorSpec::parse("hsv { a b c }"), Err(VicError::Other(_))));
    assert!(matches!(ColorSpec::parse("{ 1 2 }"), Err(VicError::SaveError)));
    assert_eq!(ColorWrap::from([0, 100, 200]).inverse().unravel(), [255, 255, 0]);
    assert_eq!(ColorWrap::from([7, 8, 9]).index(2), 9);
    assert_eq!(default_color().unravel(), [0, 0, 0]);
}

#[test]
fn pops_of_the_save() {
    let p = Pop::consume_one(first("12={\n type=\"laborers\"\n size_wa=10\n location=3\n religion=\"catholic\"\n wealth=1\n culture=4\n}")).unwrap();
    assert_eq!(p.size().unwrap(), 10);
    assert_eq!(p.dependents().unwrap(), 0);
    assert_eq!(p.profession().unwrap(), "laborers");
    assert_eq!(p.location().unwrap(), 3);
    let e = Pop::consume_one(first("13=none")).unwrap();
    assert!(e.empty());
    assert!(matches!(e.culture(), Err(VicError::Other(_))));
    assert!(Pop::consume_one(first("x={\n type=\"laborers\"\n}")).is_err());
}

#[test]
fn states_of_the_save() {
    let s = SaveState::consume_one(first("8={\n capital=2\n region=\"STATE_A\"\n provinces={\n provinces={ 5 1 10 0 }\n provinces={ 20 0 }\n }\n}")).unwrap();
    assert_eq!(s.provinces(), &vec![5, 6, 10, 20]);
    assert_eq!(s.state(), "STATE_A");
    assert_eq!(s.capital(), Some(2));
    assert_eq!(s.country(), None);
    let e = SaveState::consume_one(first("9=none")).unwrap();
    assert!(e.provinces().is_empty());
    let c = SaveCountryData::consume_one(first("5={\n definition=\"GBR\"\n capital=100\n cultures={ 1 2 }\n religion=protestant\n states={ 8 }\n country_type=recognized\n}")).unwrap();
    assert_eq!(c.tag(), "GBR");
    assert!(c.contains(&s));
    assert_eq!(c.cultures(), &vec![1, 2]);
    let cu = SaveCultureData::consume_one(first("3={\n type=french\n core_states={ STATE_A }\n}")).unwrap();
    assert_eq!((cu.id(), cu.name().as_str()), (3, "french"));
}
