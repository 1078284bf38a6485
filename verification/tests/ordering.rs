use province_definition::definition::Definition;
use province_definition::kind::DefinitionKind;
use province_definition::order::{compare_bytes, shared_prefix};
use std::cmp::Ordering;

fn record(id: u32, kind: DefinitionKind, continent: u16, terrain: &str) -> Definition {
    Definition { id, rgb: [0, 0, 0], kind, coastal: false, terrain: terrain.to_string(), continent }
}

fn samples() -> Vec<Definition> {
    let mut all = Vec::new();
    let mut id = 0;
    for kind in [DefinitionKind::Lake, DefinitionKind::Land, DefinitionKind::Sea] {
        for continent in [7u16, 0, 300] {
            for terrain in ["plains", "", "hills", "plain", "plainz", "\u{e9}tang", "z"] {
                all.push(record(id, kind, continent, terrain));
                id += 1;
            }
        }
    }
    all
}

#[test]
fn kind_decides_first() {
    let land = record(9, DefinitionKind::Land, 900, "zzz");
    let sea = record(1, DefinitionKind::Sea, 0, "");
    let lake = record(0, DefinitionKind::Lake, 0, "");
    assert_eq!(land.cmp(&sea), Ordering::Less);
    assert_eq!(sea.cmp(&lake), Ordering::Less);
    assert_eq!(land.cmp(&lake), Ordering::Less);
    assert_eq!(lake.cmp(&land), Ordering::Greater);
}

#[test]
fn continent_decides_among_equal_kinds() {
    let near = record(9, DefinitionKind::Sea, 2, "zzz");
    let far = record(1, DefinitionKind::Sea, 10, "aaa");
    assert_eq!(near.cmp(&far), Ordering::Less);
    assert_eq!(far.cmp(&near), Ordering::Greater);
}

#[test]
fn terrain_decides_last() {
    let hills = record(9, DefinitionKind::Sea, 2, "hills");
    let plains = record(1, DefinitionKind::Sea, 2, "plains");
    let plain = record(1, DefinitionKind::Sea, 2, "plain");
    assert_eq!(hills.cmp(&plains), Ordering::Less);
    assert_eq!(plain.cmp(&plains), Ordering::Less);
    assert_eq!(plains.cmp(&plain), Ordering::Greater);
    assert_eq!(plains.cmp(&plains), Ordering::Equal);
}

#[test]
fn number_colour_and_coast_play_no_part() {
    let a = Definition {
        id: 1,
        rgb: [1, 2, 3],
        kind: DefinitionKind::Land,
        coastal: true,
        terrain: String::from("plains"),
        continent: 3,
    };
    let b = Definition {
        id: 99,
        rgb: [200, 0, 7],
        kind: DefinitionKind::Land,
        coastal: false,
        terrain: String::from("plains"),
        continent: 3,
    };
    assert_ne!(a, b);
    assert_eq!(a.cmp(&b), Ordering::Equal);
    assert_eq!(b.cmp(&a), Ordering::Equal);
    assert_eq!(a.partial_cmp(&b), Some(Ordering::Equal));
}

#[test]
fn order_is_a_strict_total_order_on_samples() {
    let all = samples();
    for a in &all {
        assert_eq!(a.cmp(a), Ordering::Equal);
        for b in &all {
            let ab = a.cmp(b);
            assert_eq!(b.cmp(a), ab.reverse());
            let same = a.kind == b.kind && a.continent == b.continent && a.terrain == b.terrain;
            assert_eq!(ab == Ordering::Equal, same);
            for c in &all {
                if ab == Ordering::Less && b.cmp(c) == Ordering::Less {
                    assert_eq!(a.cmp(c), Ordering::Less);
                }
            }
        }
    }
}

#[test]
fn order_agrees_with_the_key_as_a_tuple() {
    let all = samples();
    for a in &all {
        for b in &all {
            let expected = (a.kind, a.continent, &a.terrain).cmp(&(b.kind, b.continent, &b.terrain));
            assert_eq!(a.cmp(b), expected);
            assert_eq!(a.partial_cmp(b), Some(expected));
            assert_eq!(a < b, expected == Ordering::Less);
            assert_eq!(a >= b, expected != Ordering::Less);
        }
    }
}

#[test]
fn sorting_groups_by_kind_then_continent_then_terrain() {
    let mut all = samples();
    all.sort_by(|a, b| a.cmp(b));
    let keys: Vec<(DefinitionKind, u16, String)> =
        all.iter().map(|d| (d.kind, d.continent, d.terrain.clone())).collect();
    let mut expected = keys.clone();
    expected.sort();
    assert_eq!(keys, expected);
    assert_eq!(keys[0], (DefinitionKind::Land, 0, String::new()));
    assert_eq!(keys[keys.len() - 1], (DefinitionKind::Lake, 300, String::from("\u{e9}tang")));
}

#[test]
fn bytes_compare_from_the_left() {
    assert_eq!(compare_bytes(b"", b""), Ordering::Equal);
    assert_eq!(compare_bytes(b"", b"a"), Ordering::Less);
    assert_eq!(compare_bytes(b"a", b""), Ordering::Greater);
    assert_eq!(compare_bytes(b"abc", b"abd"), Ordering::Less);
    assert_eq!(compare_bytes(b"abd", b"abc"), Ordering::Greater);
    assert_eq!(compare_bytes(b"ab", b"abc"), Ordering::Less);
    assert_eq!(compare_bytes(b"b", b"abc"), Ordering::Greater);
    assert_eq!(compare_bytes(b"abc", b"abc"), Ordering::Equal);
    assert_eq!(compare_bytes(&[0xff], &[0x00, 0x01]), Ordering::Greater);
}

#[test]
fn shared_prefix_stops_at_the_first_difference() {
    assert_eq!(shared_prefix(b"", b""), 0);
    assert_eq!(shared_prefix(b"abc", b"abd"), 2);
    assert_eq!(shared_prefix(b"abc", b"abc"), 3);
    assert_eq!(shared_prefix(b"ab", b"abc"), 2);
    assert_eq!(shared_prefix(b"xbc", b"abc"), 0);
}
