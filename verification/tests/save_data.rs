use vic3_analyzer::data::map::strategic::StrategicRegion;
use vic3_analyzer::map::statetemplates::StateTemplate;
use vic3_analyzer::map::water::Water;
use vic3_analyzer::map::{GameMap, MapParts};
use vic3_analyzer::data::save::coloring::{base_colors, BaseColor};
use vic3_analyzer::data::save::Save;
use vic3_analyzer::draw::Coloring;
use vic3_analyzer::error::VicError;

fn save_text() -> String {
    [
        "version=1",
        "# a comment = { }",
        "pops={",
        " database={",
        "  12={",
        " type=\"laborers\"",
        " size_wa=10",
        " location=8",
        " religion=\"catholic\"",
        " wealth=1",
        " culture=3",
        " }",
        "  13=none",
        "  14={",
        " type=\"farmers\"",
        " size_wa=5",
        " location=8",
        " religion=\"protestant\"",
        " wealth=1",
        " culture=4",
        " }",
        " }",
        "}",
        "states={",
        " database={",
        "  8={",
        " capital=2",
        " region=\"STATE_A\"",
        " provinces={",
        " provinces={ 5 1 }",
        " }",
        " }",
        " }",
        "}",
        "country_manager={",
        " database={",
        "  5={",
        " definition=\"GBR\"",
        " capital=100",
        " cultures={ 3 }",
        " religion=protestant",
        " states={ 8 }",
        " country_type=recognized",
        " }",
        " }",
        "}",
        "cultures={",
        " database={",
        "  3={",
        " type=french",
        " core_states={ STATE_A }",
        " }",
        "  4={",
        " type=english",
        " core_states={ STATE_A }",
        " }",
        " }",
        "}",
    ]
    .join("\n")
}

fn save() -> Save {
    Save::read(&save_text().into_bytes()).unwrap()
}

#[test]
fn pops_live_in_the_state_of_their_location() {
    let s = save();
    assert_eq!(s.states().len(), 1);
    assert_eq!(s.states()[0].pops().len(), 2);
    assert_eq!(s.countries().len(), 1);
    assert_eq!(s.cultures().len(), 2);
    assert_eq!(s.population().unwrap(), vec![(8, 15)]);
}

#[test]
fn shares_by_culture_and_religion() {
    let s = save();
    assert_eq!(s.culture_named("french"), Some(3));
    assert_eq!(s.culture_named("german"), None);
    assert_eq!(s.culture_shares(3).unwrap(), vec![(8, 10)]);
    assert_eq!(s.culture_shares(4).unwrap(), vec![(8, 5)]);
    assert_eq!(s.religion_shares("protestant").unwrap(), vec![(8, 5)]);
    assert_eq!(s.religion_shares("orthodox").unwrap(), vec![(8, 0)]);
}

#[test]
fn owners_of_a_province() {
    let s = save();
    let (st, c) = s.get_owners(6).unwrap();
    assert_eq!((st.id(), c.id()), (8, 5));
    assert!(s.get_owners(9).is_none());
    assert_eq!(s.province_datum(Coloring::SaveStates, 5), Some(8));
    assert_eq!(s.province_datum(Coloring::SaveCountries, 5), Some(5));
    assert_eq!(s.province_datum(Coloring::SaveCountries, 7), None);
    assert_eq!(s.get_state(8).unwrap().state(), "STATE_A");
    assert!(matches!(s.get_state(9), Err(VicError::MapError(_))));
    assert_eq!(s.get_country(5).unwrap().tag(), "GBR");
    assert_eq!(s.get_culture(4).unwrap().name(), "english");
}

#[test]
fn a_save_that_is_not_utf8_is_an_error() {
    assert!(matches!(Save::read(&vec![0xff, 0xfe, 0x00]), Err(VicError::SaveError)));
}

#[test]
fn the_last_entry_of_an_id_stands() {
    let text = save_text().replace("  4={\n type=english", "  3={\n type=english");
    let s = Save::read(&text.into_bytes()).unwrap();
    assert_eq!(s.cultures().len(), 1);
    assert_eq!(s.get_culture(3).unwrap().name(), "english");
}

fn drawn_map() -> vic3_analyzer::map::GameMap {
    let states = "STATE_A = {\n    id = 1\n    provinces = { \"x000001\" \"x000002\" }\n}\nSTATE_B = {\n    id = 2\n    provinces = { \"x000003\" \"x000004\" \"x000005\" \"x000006\" }\n}\n";
    let regions = "region_a = {\n    map_color = { 0.5 0.2 0.1 }\n    states = { STATE_A STATE_B }\n}\n";
    let parts = MapParts {
        regions: StrategicRegion::new(&vec![regions.as_bytes().to_vec()]).unwrap(),
        states: StateTemplate::new(&vec![states.as_bytes().to_vec()]).unwrap(),
        water: Water::new(&vec![b"sea_starts = { \"x000009\" }\nlakes = { \"x000008\" }\n".to_vec()]).unwrap(),
        countries: Vec::new(),
        named_colors: Vec::new(),
        cultures: Vec::new(),
        religions: Vec::new(),
        lawgroups: Vec::new(),
        laws: Vec::new(),
        professions: Vec::new(),
        traits: Vec::new(),
    };
    let px: Vec<[u8; 3]> = (1..=6).map(|b| [0, 0, b]).collect();
    GameMap::new(parts, &px)
}

#[test]
fn base_colors_follow_the_first_color_of_each_owner() {
    let map = drawn_map();
    let s = save();
    let colors: Vec<[u8; 3]> = (1..=6).map(|b| [0, 0, b]).collect();
    let owned: Vec<bool> = colors.iter().map(|c| matches!(map.to_index(*c), Some(5) | Some(6))).collect();
    let first = colors.iter().zip(&owned).find(|(_, o)| **o).map(|(c, _)| *c).unwrap();
    for coloring in [Coloring::SaveStates, Coloring::SaveCountries] {
        let bases = base_colors(&map, &s, coloring, &colors).unwrap();
        assert_eq!(bases.len(), 6);
        for ((c, o), (base, ids)) in colors.iter().zip(&owned).zip(&bases) {
            if *o {
                assert_eq!(*ids, Some((8, 5)));
                assert!(matches!(base, BaseColor::Pixel(p) if *p == first));
            } else {
                assert_eq!(*ids, None);
                assert!(matches!(base, BaseColor::Pixel(p) if p == c));
            }
        }
    }
    let bases = base_colors(&map, &s, Coloring::StateTemplates, &colors).unwrap();
    for ((c, o), (base, _)) in colors.iter().zip(&owned).zip(&bases) {
        if *o {
            assert!(matches!(base, BaseColor::Spec(_)));
        } else {
            assert!(matches!(base, BaseColor::Pixel(p) if p == c));
        }
    }
    assert!(owned.iter().any(|o| *o));
}

#[test]
fn a_color_off_the_map_stops_the_base_colors() {
    let map = drawn_map();
    let s = save();
    assert!(base_colors(&map, &s, Coloring::SaveStates, &vec![[0, 0, 1], [7, 7, 7]]).is_err());
}

#[test]
fn cultures_are_tallied_per_state_and_country() {
    let s = save();
    assert_eq!(s.state_cultures(3).unwrap(), vec![(8, 10, 15)]);
    assert_eq!(s.state_cultures(4).unwrap(), vec![(8, 5, 15)]);
    assert_eq!(s.state_cultures(7).unwrap(), vec![(8, 0, 15)]);
    assert_eq!(s.country_cultures(3).unwrap(), vec![("GBR".to_string(), 10, 15)]);
}
