use rbx_dom_weak::types::Ref;
use rbxl_editor::scan::{scan_place_assets, PlaceNode, PlaceTree, PropValue};

fn node(id: u128, name: &str, class: &str, props: &[(&str, PropValue)]) -> PlaceNode {
    PlaceNode {
        referent: Ref::some(id),
        name: name.to_string(),
        class: class.to_string(),
        properties: props
            .iter()
            .map(|(k, v)| {
                let v = match v {
                    PropValue::Text(s) => PropValue::Text(s.clone()),
                    PropValue::Other => PropValue::Other,
                };
                (k.to_string(), v)
            })
            .collect(),
    }
}

fn text(s: &str) -> PropValue {
    PropValue::Text(s.to_string())
}

#[test]
fn scan_walks_last_child_first_and_keeps_first_sighting() {
    let mut t = PlaceTree::new();
    let a = t
        .add(None, node(1, "A", "MeshPart", &[("MeshId", text("rbxassetid://111"))]))
        .unwrap();
    let b = t
        .add(
            None,
            node(2, "B", "Decal", &[("Texture", text("rbxassetid://222")), ("SoundId", text(""))]),
        )
        .unwrap();
    assert_eq!((a, b), (0, 1));
    t.add(Some(a), node(3, "A1", "SpecialMesh", &[("MeshID", text("rbxassetid://111"))])).unwrap();
    t.add(
        Some(a),
        node(
            4,
            "A2",
            "Texture",
            &[
                ("TextureID", text("http://www.roblox.com/asset/?id=333")),
                ("Name", text("rbxassetid://444")),
                ("AnimationId", PropValue::Other),
            ],
        ),
    )
    .unwrap();
    assert_eq!(t.len(), 4);
    let found = scan_place_assets(&t);
    let ids: Vec<&str> = found.iter().map(|f| f.asset_id.as_str()).collect();
    assert_eq!(ids, vec!["222", "111", "333"]);
    assert_eq!(found[0].asset_type, "Texture");
    assert_eq!(found[0].instance_name, "B");
    assert_eq!(found[0].referent, Ref::some(2));
    assert_eq!(found[1].asset_type, "Mesh");
    assert_eq!(found[1].instance_class, "MeshPart");
    assert_eq!(found[2].instance_name, "A2");
    assert!(found.iter().all(|f| !f.is_downloaded));
}

#[test]
fn scan_of_empty_place_finds_nothing() {
    let t = PlaceTree::new();
    assert!(scan_place_assets(&t).is_empty());
}

#[test]
fn adding_under_a_missing_parent_is_refused() {
    let mut t = PlaceTree::new();
    assert_eq!(t.add(Some(0), node(1, "X", "Folder", &[])), None);
    assert_eq!(t.len(), 0);
    let root = t.add(None, node(1, "X", "Folder", &[])).unwrap();
    assert_eq!(t.add(Some(root + 5), node(2, "Y", "Folder", &[])), None);
    assert_eq!(t.add(Some(root), node(2, "Y", "Folder", &[])), Some(1));
}

#[test]
fn sound_and_animation_references() {
    let mut t = PlaceTree::new();
    t.add(
        None,
        node(
            9,
            "S",
            "Sound",
            &[
                ("SoundID", text("rbxassetid://5050")),
                ("AnimationId", text("rbxassetid://6060")),
                ("SoundId", text("rbxassetid://5050")),
            ],
        ),
    )
    .unwrap();
    let found = scan_place_assets(&t);
    assert_eq!(found.len(), 2);
    assert_eq!((found[0].asset_id.as_str(), found[0].asset_type), ("5050", "Sound"));
    assert_eq!((found[1].asset_id.as_str(), found[1].asset_type), ("6060", "Animation"));
}

#[test]
fn scan_reaches_deep_instances() {
    let mut t = PlaceTree::new();
    let mut parent = t.add(None, node(1, "Root", "Model", &[])).unwrap();
    for depth in 0..5u128 {
        let id = format!("rbxassetid://{}", 5000 + depth);
        parent = t
            .add(Some(parent), node(10 + depth, "Deep", "Sound", &[("SoundId", text(&id))]))
            .unwrap();
    }
    t.add(None, node(99, "Other", "Animation", &[("AnimationId", text("  id=7  "))])).unwrap();
    assert_eq!(t.add(Some(42), node(100, "Lost", "Part", &[])), None);
    let found = scan_place_assets(&t);
    let mut ids: Vec<String> = found.iter().map(|f| f.asset_id.clone()).collect();
    ids.sort();
    assert_eq!(ids, vec!["5000", "5001", "5002", "5003", "5004", "7"]);
    for f in &found {
        assert!(!f.is_downloaded);
        if f.asset_id == "7" {
            assert_eq!(f.asset_type, "Animation");
            assert_eq!(f.instance_class, "Animation");
        } else {
            assert_eq!(f.asset_type, "Sound");
            assert_eq!(f.instance_name, "Deep");
        }
    }
}
