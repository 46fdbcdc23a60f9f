use vic3_analyzer::data::map::strategic::StrategicRegion;
use vic3_analyzer::draw::{Coloring, Owners};
use vic3_analyzer::map::statetemplates::StateTemplate;
use vic3_analyzer::map::water::Water;
use vic3_analyzer::map::{GameMap, MapParts};
use vic3_analyzer::wrappers::ColorSpec;

const STATES: &str = "STATE_A = {\n    id = 1\n    provinces = { \"x000001\" \"x000002\" }\n    arable_land = 10\n}\nSTATE_B = {\n    id = 2\n    provinces = { \"x000003\" }\n}\n";
const REGIONS: &str = "region_a = {\n    graphical_culture = \"arabic_gfx\"\n    map_color = { 0.5 0.2 0.1 }\n    states = { STATE_A STATE_B }\n}\n";
const WATER: &str = "sea_starts = { \"x000009\" }\nlakes = { \"x000008\" }\n";

fn parts() -> MapParts {
    MapParts {
        regions: StrategicRegion::new(&vec![REGIONS.as_bytes().to_vec()]).unwrap(),
        states: StateTemplate::new(&vec![STATES.as_bytes().to_vec()]).unwrap(),
        water: Water::new(&vec![WATER.as_bytes().to_vec()]).unwrap(),
        countries: Vec::new(),
        named_colors: Vec::new(),
        cultures: Vec::new(),
        religions: Vec::new(),
        lawgroups: Vec::new(),
        laws: Vec::new(),
        professions: Vec::new(),
        traits: Vec::new(),
    }
}

fn pixels() -> Vec<[u8; 3]> {
    vec![[0, 0, 1], [0, 0, 1], [0, 0, 3], [0, 0, 2], [9, 9, 9], [0, 0, 1]]
}

#[test]
fn provinces_take_the_slots_of_their_state() {
    let map = GameMap::new(parts(), &pixels());
    assert_eq!(map.to_index([0, 0, 1]), Some(1));
    assert_eq!(map.to_index([0, 0, 2]), Some(2));
    assert_eq!(map.to_index([0, 0, 3]), Some(3));
    assert_eq!(map.to_index([9, 9, 9]), Some(4));
    assert_eq!(map.to_index([1, 1, 1]), None);
}

#[test]
fn slots_count_the_pixels_of_their_color() {
    let map = GameMap::new(parts(), &pixels());
    assert_eq!(map.area(&vec![1]), 3);
    assert_eq!(map.area(&vec![1, 2]), 4);
    assert_eq!(map.area(&vec![0, 1, 2, 3, 4]), pixels().len());
}

#[test]
fn states_are_found_by_province_color() {
    let map = GameMap::new(parts(), &pixels());
    assert_eq!(map.get_state_name([0, 0, 3]).map(|s| s.as_str()), Some("STATE_B"));
    assert_eq!(map.get_state_name([0, 0, 2]).map(|s| s.as_str()), Some("STATE_A"));
    assert_eq!(map.get_state_name([9, 9, 9]).map(|s| s.as_str()), Some("UNORGANIZED"));
    assert_eq!(map.get_state_name([1, 1, 1]), None);
    assert_eq!(map.col_index_to_state(3).map(|t| t.name().as_str()), Some("STATE_B"));
    assert!(map.col_index_to_state(0).is_none());
}

#[test]
fn states_are_numbered_and_placed() {
    let map = GameMap::new(parts(), &pixels());
    let areas: Vec<(String, usize, (usize, usize), Option<usize>)> = map
        .state_area()
        .into_iter()
        .map(|(t, a)| (t.name().clone(), a, t.id(), t.get_offset()))
        .collect();
    assert_eq!(
        areas,
        vec![
            ("STATE_A".to_string(), 4, (1, 0), Some(1)),
            ("STATE_B".to_string(), 1, (2, 1), Some(3)),
        ]
    );
    assert_eq!(map.regions()[0].get_offset(), Some(1));
    assert!(map.get_region(0).is_some());
    assert!(map.get_region(1).is_none());
}

#[test]
fn strategic_color_is_the_region_color() {
    let map = GameMap::new(parts(), &pixels());
    match map.get_strat_color([0, 0, 1]) {
        Some(ColorSpec::Rgb(r, g, b)) => assert_eq!((r.as_str(), g.as_str(), b.as_str()), ("0.5", "0.2", "0.1")),
        other => panic!("{:?}", other),
    }
    assert!(map.get_strat_color([9, 9, 9]).is_none());
}

#[test]
fn a_province_missing_from_the_map_stops_the_build() {
    let px = vec![[0, 0, 1], [0, 0, 3]];
    assert!(GameMap::try_new(parts(), &px).is_none());
    assert!(GameMap::try_new(parts(), &pixels()).is_some());
}

#[test]
fn ocean_states_are_marked() {
    let states = "SEA = {\n    id = 3\n    provinces = { \"x000009\" }\n}\nLAND = {\n    id = 4\n    provinces = { \"x000004\" }\n}\n";
    let mut p = parts();
    p.states = StateTemplate::new(&vec![states.as_bytes().to_vec()]).unwrap();
    p.regions = Vec::new();
    let map = GameMap::try_new(p, &vec![[0, 0, 9], [0, 0, 4]]);
    // no region places the states, so their slots stay free
    assert!(map.is_none());
    let mut p = parts();
    p.states = StateTemplate::new(&vec![states.as_bytes().to_vec()]).unwrap();
    p.regions = StrategicRegion::new(&vec!["r = {\n    states = { SEA LAND }\n}\n".as_bytes().to_vec()]).unwrap();
    let map = GameMap::try_new(p, &vec![[0, 0, 9], [0, 0, 4]]).unwrap();
    let oceans: Vec<bool> = map.state_area().into_iter().map(|(t, _)| t.is_ocean()).collect();
    assert_eq!(oceans, vec![true, false]);
}

#[test]
fn owners_give_back_the_color_set_for_a_coloring() {
    let mut owners = Owners::new();
    let c = [1, 2, 3];
    assert_eq!(owners.owner_getter(Coloring::SaveStates, &c, 0).unwrap(), Some((None, None)));
    owners.record(&c, Some((7, 9)), 0);
    owners.owner_inserter(Coloring::SaveStates, &c, [4, 5, 6], 0);
    assert_eq!(owners.owner_getter(Coloring::SaveStates, &c, 0).unwrap(), Some((Some([4, 5, 6]), Some(7))));
    assert_eq!(owners.owner_getter(Coloring::SaveCountries, &c, 0).unwrap(), Some((None, Some(9))));
    assert_eq!(owners.owner_getter(Coloring::SaveStates, &c, 1).unwrap(), Some((None, None)));
    assert_eq!(owners.owner_getter(Coloring::Provinces, &c, 0).unwrap(), Some((Some(c), None)));
    assert!(owners.owner_getter(Coloring::Nothing, &c, 0).is_err());
    owners.mark_unowned(&[0, 0, 0], 0);
    assert!(owners.is_unowned(&[0, 0, 0], 0));
    assert!(!owners.is_unowned(&c, 0));
    assert_eq!(owners.owner_getter(Coloring::StateTemplates, &[0, 0, 0], 0).unwrap(), None);
    assert!(Coloring::default() == Coloring::Nothing);
}
