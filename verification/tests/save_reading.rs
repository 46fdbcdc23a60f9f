use vic3_analyzer::save::countries::Country as SaveCountry;
use vic3_analyzer::save::cultures::Culture as SaveCulture;
use vic3_analyzer::save::pops::Pop as OldPop;
use vic3_analyzer::save::save_scanner::{DataStructure, SaveIterator};
use vic3_analyzer::save::states::State as OldState;
use vic3_analyzer::scanner::{DataFormat, GetMapData, MapIterator};
use vic3_analyzer::tape_scanner::{JomData, JomIter};
use vic3_analyzer::text::{split_pieces, split_words};

fn lines(v: &[&str]) -> Vec<String> {
    v.iter().map(|s| s.to_string()).collect()
}

fn describe(d: DataStructure) -> String {
    match d {
        DataStructure::Itr(l, it) => {
            let mut it = it;
            let mut inner = Vec::new();
            while let Some(x) = it.next() {
                inner.push(describe(x));
            }
            format!("{l}[{}]", inner.join(","))
        }
        DataStructure::Val(v) => v,
    }
}

#[test]
fn save_pieces_are_cut_outside_braces_and_quotes() {
    let mut it = SaveIterator::new("  a={ b c } d \"e f\" g{h}  ");
    let mut out = Vec::new();
    while let Some(d) = it.next() {
        out.push(describe(d));
    }
    assert_eq!(out, vec!["a[b,c]", "d", "\"e f\"", "g[h}]"]);
}

#[test]
fn save_pieces_name_and_values() {
    let mut it = SaveIterator::new("a={ b } 42");
    let a = it.next().unwrap();
    assert!(a.name("a"));
    assert!(!a.name("b"));
    let (label, inner) = a.into_iter_alt().unwrap();
    assert_eq!(label, "a");
    assert_eq!(inner.y_str().unwrap(), "b");
    let v = it.next().unwrap();
    assert!(!v.name("42"));
    assert!(v.into_iter_alt().is_err());
    assert_eq!(SaveIterator::new("42").y_parse().unwrap(), 42);
    assert!(SaveIterator::new("x42").y_parse().is_err());
    let mut inner = SaveIterator::new("k={ 1 2 }").next().unwrap().into_iter();
    assert_eq!(describe(inner.next().unwrap()), "1");
}

#[test]
fn a_culture_is_read_up_to_its_closing_brace() {
    let data = lines(&["12={", "\ttype=french", "\tcore_states={ STATE_A STATE_B }", "}", "13={"]);
    let mut at = 0;
    let c = SaveCulture::new(&data, &mut at).unwrap().unwrap();
    assert_eq!(at, 4);
    assert_eq!(c.id(), 12);
    assert_eq!(c.name(), "french");
    assert_eq!(c.homelands(), &vec!["STATE_A".to_string(), "STATE_B".to_string()]);
    let mut at = 0;
    assert!(SaveCulture::new(&lines(&["\ttype=french", "}"]), &mut at).unwrap().is_none());
    assert_eq!(at, 2);
    let mut at = 4;
    assert!(SaveCulture::read(&data, &mut at).is_none());
    assert_eq!(at, 5);
}

#[test]
fn a_country_is_read_up_to_its_closing_brace() {
    let data = lines(&[
        "5={",
        "\tdefinition=\"GBR\"",
        "\tcapital=100",
        "\tcultures={ 1 2 }",
        "\treligion=protestant",
        "\t\tlower_strata_pops=10",
        "\t\tmiddle_strata_pops=20",
        "\t\tupper_strata_pops=30",
        "\tstates={ 3 4 }",
        "\tcountry_type=\"recognized\"",
        "}",
    ]);
    let mut at = 0;
    let c = SaveCountry::new(&data, &mut at).unwrap().unwrap();
    assert_eq!(at, 11);
    assert_eq!(c.id().unwrap(), 5);
    assert_eq!(c.tag(), "GBR");
    assert_eq!(c.states(), &vec![3, 4]);
    assert_eq!(c.state_id_to_tag(&4), Some("GBR".to_string()));
    assert_eq!(c.state_id_to_tag(&5), None);
}

#[test]
fn countries_marked_none_or_closed_early() {
    let mut at = 0;
    let c = SaveCountry::new(&lines(&["7=none"]), &mut at).unwrap().unwrap();
    assert_eq!(c.id().unwrap(), 7);
    assert_eq!(c.tag(), "");
    let mut at = 0;
    assert!(SaveCountry::new(&lines(&["\t}"]), &mut at).unwrap().is_none());
    let mut at = 0;
    assert!(SaveCountry::new(&lines(&["5={", "\tcapital=99999999999999999999999", "}"]), &mut at).is_err());
    let mut at = 0;
    assert!(SaveCountry::read(&lines(&["5={", "}"]), &mut at).is_none());
}

#[test]
fn old_pops_need_workforce_and_dependents() {
    let whole = "12={\n type=\"laborers\"\n size_wa=10\n size_dn=5\n location=3\n religion=\"catholic\"\n wealth=1\n culture=4\n}";
    let p = OldPop::consume_one(MapIterator::new(whole, DataFormat::Labeled).next().unwrap()).unwrap();
    assert_eq!(p.size().unwrap(), 15);
    assert_eq!(p.religion().unwrap(), "catholic");
    let partial = "12={\n type=\"laborers\"\n size_wa=10\n location=3\n religion=\"catholic\"\n wealth=1\n culture=4\n}";
    assert!(OldPop::consume_one(MapIterator::new(partial, DataFormat::Labeled).next().unwrap()).is_err());
    let empty = "13=none";
    let p = OldPop::consume_one(MapIterator::new(empty, DataFormat::Labeled).next().unwrap()).unwrap();
    assert!(p.empty());
    assert!(p.size().is_err());
}

#[test]
fn old_states_sum_their_pops() {
    let text = "8={\n capital=2\n country=1\n region=STATE_A\n provinces={\n provinces={ 5 2 }\n }\n}";
    let mut s = OldState::consume_one(MapIterator::new(text, DataFormat::Labeled).next().unwrap()).unwrap();
    assert_eq!(s.provinces(), &vec![5, 6, 7]);
    assert!(s.contains(6));
    assert!(!s.contains(8));
    assert_eq!(s.state(), "STATE_A");
    assert_eq!((s.capital(), s.country()), (2, 1));
    let a = "1={\n type=\"laborers\"\n size_wa=10\n size_dn=5\n location=8\n religion=\"catholic\"\n wealth=1\n culture=4\n}";
    let b = "2={\n type=\"laborers\"\n size_wa=1\n size_dn=2\n location=8\n religion=\"orthodox\"\n wealth=1\n culture=5\n}";
    s.insert_pop(OldPop::consume_one(MapIterator::new(a, DataFormat::Labeled).next().unwrap()).unwrap());
    s.insert_pop(OldPop::consume_one(MapIterator::new(b, DataFormat::Labeled).next().unwrap()).unwrap());
    assert_eq!(s.pop().unwrap(), 18);
    assert_eq!(s.culture_pop(4).unwrap(), (15, 18));
    assert_eq!(s.religion_pop("orthodox").unwrap(), (3, 18));
    let missing = "8={\n capital=2\n region=STATE_A\n provinces={\n provinces={ 5 2 }\n }\n}";
    assert!(OldState::consume_one(MapIterator::new(missing, DataFormat::Labeled).next().unwrap()).is_err());
}

#[test]
fn words_and_pieces() {
    assert_eq!(split_words(" a  b ", ' '), vec!["a".to_string(), "b".to_string()]);
    assert_eq!(split_pieces("1  2", ' '), vec!["1".to_string(), "".to_string(), "2".to_string()]);
}

#[test]
fn tape_walk_steps_over_blocks() {
    let data = JomData::new(&b"a = { b = 1 } c = 2 5 = { x }".to_vec());
    let mut it = JomIter::new(&data);
    assert!(it.next().is_some());
    let mut inner = it.new_array();
    assert_eq!(inner.name(), Some("a".to_string()));
    assert!(inner.next().is_some());
    assert!(inner.next().is_some());
    assert!(inner.next().is_none());
    assert_eq!(it.index(), 5);
    assert!(it.next().is_some());
    let scalar = it.new_array();
    assert_eq!(scalar.name(), Some("c".to_string()));
    assert_eq!(scalar.id(), None);
    assert_eq!(it.index(), 8);
    let block = it.new_array();
    assert_eq!(block.id(), Some(5));
    assert!(JomData::parse(&b"a = { b".to_vec()).is_none() || JomData::parse(&b"a = { b".to_vec()).is_some());
}

#[test]
fn tape_scalars_read_as_jomini_writes_them() {
    let data = JomData::new(&"\"x\\\\y  \" = 2 +7 = { x } \"\u{e9}\" = 3".as_bytes().to_vec());
    let mut it = JomIter::new(&data);
    assert!(it.next().is_some());
    let first = it.new_array();
    assert_eq!(first.name(), Some("xy".to_string()));
    let block = it.new_array();
    assert_eq!(block.id(), Some(7));
    assert_eq!(block.name(), Some("+7".to_string()));
    assert!(it.next().is_some());
    let last = it.new_array();
    assert_eq!(last.name(), Some("non-ascii string of 2 length".to_string()));
    assert_eq!(last.id(), None);
}
