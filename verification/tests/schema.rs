use rgb_validation::schema::collections::{OccurrenceMap, Occurrences, ValencySet};
use rgb_validation::schema::operations::{
    ExtensionSchema, GenesisSchema, OpFullType, OpSchema, OpType, TransitionSchema,
};
use strict_types::SemId;

fn occurrences(min: u16, max: u16) -> Occurrences {
    Occurrences { min, max }
}

fn states(entries: &[(u16, Occurrences)]) -> OccurrenceMap {
    OccurrenceMap::from_entries(&entries.to_vec()).unwrap()
}

fn valencies(types: &[u16]) -> ValencySet {
    ValencySet::from_valencies(&types.to_vec()).unwrap()
}

fn metadata() -> SemId {
    SemId::from([7u8; 32])
}

#[test]
fn kind_names_and_codes() {
    assert_eq!(OpType::Genesis.name(), "genesis");
    assert_eq!(OpType::StateExtension.name(), "extension");
    assert_eq!(OpType::StateTransition.name(), "transition");
    assert_eq!(OpType::Genesis.code(), 0);
    assert_eq!(OpType::StateExtension.code(), 1);
    assert_eq!(OpType::StateTransition.code(), 2);
}

#[test]
fn kinds_in_order() {
    assert!(OpType::Genesis < OpType::StateExtension);
    assert!(OpType::StateExtension < OpType::StateTransition);
    assert!(OpFullType::Genesis < OpFullType::StateTransition(0));
    assert!(OpFullType::StateTransition(u16::MAX) < OpFullType::StateExtension(0));
}

#[test]
fn full_names() {
    assert_eq!(OpFullType::Genesis.name(), "genesis");
    assert_eq!(OpFullType::StateTransition(0).name(), "state transition #0");
    assert_eq!(OpFullType::StateTransition(9).name(), "state transition #9");
    assert_eq!(OpFullType::StateTransition(10203).name(), "state transition #10203");
    assert_eq!(OpFullType::StateExtension(65535).name(), "state extension #65535");
    assert_eq!(OpFullType::StateExtension(10).name(), "state extension #10");
}

#[test]
fn subtypes() {
    assert_eq!(OpFullType::Genesis.subtype(), 0);
    assert_eq!(OpFullType::StateTransition(5).subtype(), 5);
    assert_eq!(OpFullType::StateExtension(6).subtype(), 6);
}

#[test]
fn transition_or_extension() {
    assert!(!OpFullType::Genesis.is_transition());
    assert!(!OpFullType::Genesis.is_extension());
    assert!(OpFullType::StateTransition(0).is_transition());
    assert!(!OpFullType::StateTransition(0).is_extension());
    assert!(!OpFullType::StateExtension(0).is_transition());
    assert!(OpFullType::StateExtension(0).is_extension());
}

#[test]
fn occurrence_map_holds_its_entries() {
    let map = states(&[(3, occurrences(1, 2)), (1, occurrences(0, 1)), (3, occurrences(4, 5))]);
    assert_eq!(map.get(3), Some(occurrences(4, 5)));
    assert_eq!(map.get(1), Some(occurrences(0, 1)));
    assert_eq!(map.get(2), None);
    assert_eq!(map.clone(), map);
    assert_eq!(OccurrenceMap::default().get(1), None);
}

#[test]
fn occurrence_map_is_confined() {
    let entry = |ty: u16| (ty, occurrences(ty, ty));
    let full: Vec<(u16, Occurrences)> = (0..255).map(entry).collect();
    let map = OccurrenceMap::from_entries(&full).unwrap();
    assert_eq!(map.get(254), Some(occurrences(254, 254)));
    let mut more = full.clone();
    more.push(entry(255));
    assert!(OccurrenceMap::from_entries(&more).is_none());
    // A full map takes no entry in place of another, either.
    let mut again = full.clone();
    again.push(entry(0));
    assert!(OccurrenceMap::from_entries(&again).is_none());
}

#[test]
fn valency_set_holds_its_valencies() {
    let set = valencies(&[5, 2, 5]);
    assert!(set.contains(5));
    assert!(set.contains(2));
    assert!(!set.contains(3));
    assert_eq!(set.clone(), set);
    assert!(!ValencySet::default().contains(0));
}

#[test]
fn valency_set_is_confined() {
    let full: Vec<u16> = (0..255).collect();
    assert!(ValencySet::from_valencies(&full).unwrap().contains(254));
    let mut more = full.clone();
    more.push(255);
    assert!(ValencySet::from_valencies(&more).is_none());
    let mut again = full.clone();
    again.push(0);
    assert!(ValencySet::from_valencies(&again).is_none());
}

#[test]
fn genesis_schema() {
    let schema = GenesisSchema {
        metadata: metadata(),
        globals: states(&[(1, occurrences(1, 1))]),
        assignments: states(&[(2, occurrences(0, 3))]),
        valencies: valencies(&[4]),
    };
    assert_eq!(schema.op_type(), OpType::Genesis);
    assert_eq!(OpSchema::metadata(&schema), metadata());
    assert_eq!(schema.globals().get(1), Some(occurrences(1, 1)));
    assert!(schema.inputs().is_none());
    assert!(schema.redeems().is_none());
    assert_eq!(schema.assignments().get(2), Some(occurrences(0, 3)));
    assert!(schema.valencies().contains(4));
    assert_eq!(schema.clone(), schema);
}

#[test]
fn extension_schema() {
    let schema = ExtensionSchema {
        metadata: metadata(),
        globals: states(&[(1, occurrences(1, 1))]),
        redeems: valencies(&[8]),
        assignments: states(&[(2, occurrences(0, 3))]),
        valencies: valencies(&[4]),
    };
    assert_eq!(schema.op_type(), OpType::StateExtension);
    assert_eq!(OpSchema::metadata(&schema), metadata());
    assert_eq!(schema.globals().get(1), Some(occurrences(1, 1)));
    assert!(schema.inputs().is_none());
    assert!(schema.redeems().unwrap().contains(8));
    assert!(!schema.redeems().unwrap().contains(4));
    assert_eq!(schema.assignments().get(2), Some(occurrences(0, 3)));
    assert!(schema.valencies().contains(4));
    assert_eq!(schema.clone(), schema);
}

#[test]
fn transition_schema() {
    let schema = TransitionSchema {
        metadata: metadata(),
        globals: states(&[(1, occurrences(1, 1))]),
        inputs: states(&[(6, occurrences(2, 9))]),
        assignments: states(&[(2, occurrences(0, 3))]),
        valencies: valencies(&[4]),
    };
    assert_eq!(schema.op_type(), OpType::StateTransition);
    assert_eq!(OpSchema::metadata(&schema), metadata());
    assert_eq!(schema.globals().get(1), Some(occurrences(1, 1)));
    assert_eq!(schema.inputs().unwrap().get(6), Some(occurrences(2, 9)));
    assert!(schema.redeems().is_none());
    assert_eq!(schema.assignments().get(2), Some(occurrences(0, 3)));
    assert!(schema.valencies().contains(4));
    assert_eq!(schema.clone(), schema);
}

#[test]
fn default_schemata() {
    let genesis = GenesisSchema::default();
    let extension = ExtensionSchema::default();
    let transition = TransitionSchema::default();
    assert_eq!(genesis.metadata, SemId::default());
    assert_eq!(extension.metadata, SemId::default());
    assert_eq!(transition.metadata, SemId::default());
    assert_eq!(*genesis.globals(), OccurrenceMap::default());
    assert_eq!(*extension.redeems().unwrap(), ValencySet::default());
    assert_eq!(*transition.inputs().unwrap(), OccurrenceMap::default());
}
