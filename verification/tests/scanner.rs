use vic3_analyzer::scanner::{DataFormat, DataStructure, MapIterator};

fn items(text: &str, format: DataFormat) -> Vec<String> {
    MapIterator::new(text, format)
        .into_vec()
        .into_iter()
        .map(|d| match d {
            DataStructure::Itr(a, b) => format!("Itr({a}|{b})"),
            DataStructure::Val(a) => format!("Val({a})"),
        })
        .collect()
}

#[test]
fn single_format_keeps_whole_text() {
    assert_eq!(
        items(" info={ fe fi fo fum }\n\t ", DataFormat::Single),
        vec!["Val(info={ fe fi fo fum })".to_string()]
    );
}

#[test]
fn labeled_format_splits_entries() {
    assert_eq!(
        items(" info={ fe fi fo fum }\n\t info2 = data", DataFormat::Labeled),
        vec![
            "Itr(info|{ fe fi fo fum })".to_string(),
            "Itr(info2|data)".to_string()
        ]
    );
}

#[test]
fn nested_blocks_read_level_by_level() {
    let text = "orthodox = {\n\ttexture = \"gfx/interface/icons/religion_icons/orthodox.dds\"\n\ttraits = {\n\t\tchristian\n\t}\n\tcolor = { 0.62 0.64 0.6 }\n}";
    let top = items(text, DataFormat::Labeled);
    assert_eq!(top.len(), 1);
    let inner = match MapIterator::new(text, DataFormat::Labeled).next().unwrap() {
        DataStructure::Itr(label, content) => {
            assert_eq!(label, "orthodox");
            content
        }
        DataStructure::Val(v) => panic!("{v}"),
    };
    let fields: Vec<DataStructure> = MapIterator::new(&inner, DataFormat::Labeled).into_vec();
    let labels: Vec<String> = fields
        .iter()
        .map(|d| match d {
            DataStructure::Itr(a, _) => a.clone(),
            DataStructure::Val(v) => v.clone(),
        })
        .collect();
    assert_eq!(labels, vec!["texture", "traits", "color"]);
    let color = match &fields[2] {
        DataStructure::Itr(_, c) => c.clone(),
        DataStructure::Val(v) => panic!("{v}"),
    };
    assert_eq!(items(&color, DataFormat::MultiVal), vec!["Val(0.62)", "Val(0.64)", "Val(0.6)"]);
    let traits = match &fields[1] {
        DataStructure::Itr(_, c) => c.clone(),
        DataStructure::Val(v) => panic!("{v}"),
    };
    assert_eq!(MapIterator::new(&traits, DataFormat::MultiVal).get_vec().unwrap(), vec!["christian".to_string()]);
    assert_eq!(MapIterator::new(" 42 ", DataFormat::Single).get_val().unwrap(), "42");
}

#[test]
fn multi_formats_split_as_documented() {
    let data = " info={ fe fi fo fum }\n\t ";
    let vals: Vec<String> = MapIterator::new(data, DataFormat::MultiVal)
        .into_vec()
        .into_iter()
        .map(|d| match d {
            DataStructure::Val(v) => v,
            DataStructure::Itr(_, _) => panic!("expected a value"),
        })
        .collect();
    assert_eq!(vals, vec!["info={", "fe", "fi", "fo", "fum }"]);
    let items: Vec<(String, String)> = MapIterator::new(data, DataFormat::MultiItr)
        .into_vec()
        .into_iter()
        .map(|d| match d {
            DataStructure::Itr(a, b) => (a, b),
            DataStructure::Val(_) => panic!("expected an item"),
        })
        .collect();
    assert_eq!(items.len(), 5);
    assert_eq!(items[0], (String::new(), "info={".to_string()));
    assert_eq!(items[4], (String::new(), "fum }".to_string()));
}

#[test]
fn multi_formats_keep_deeper_blocks_whole() {
    let vals: Vec<String> = MapIterator::new("a b={ c={ d e } f }", DataFormat::MultiVal)
        .into_vec()
        .into_iter()
        .map(|d| match d {
            DataStructure::Val(v) => v,
            DataStructure::Itr(_, _) => panic!("expected a value"),
        })
        .collect();
    assert_eq!(vals, vec!["a", "b={", "c={ d e }", "f }"]);
}
