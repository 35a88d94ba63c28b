use plasticity::auto::{contains_text, match_candidates, str_range, AcState};
use plasticity::naming::{try_numbered_name, Translations};
use plasticity::program::{blank_ai, AIProgram, Category, Def, Entry, ProgramError, Slot};

fn def(name: Option<&str>, class: Option<&str>) -> Option<Def> {
    Some(Def {
        name: name.map(|s| s.to_string()),
        class_name: class.map(|s| s.to_string()),
        group_name: Some(String::new()),
    })
}

fn slots(values: &[i32]) -> Option<Vec<Slot>> {
    Some(
        values
            .iter()
            .enumerate()
            .map(|(i, v)| Slot { key: 100 + i as u32, value: *v })
            .collect(),
    )
}

fn ai(name: &str, kids: &[i32]) -> Entry<()> {
    Entry { key: 0, def: def(Some(name), Some("Class")), child_idx: slots(kids), behavior_idx: None, rest: () }
}

fn action(name: &str, behaviors: &[i32]) -> Entry<()> {
    Entry { key: 0, def: def(Some(name), Some("Act")), child_idx: None, behavior_idx: slots(behaviors), rest: () }
}

fn plain(class: &str) -> Entry<()> {
    Entry { key: 0, def: def(None, Some(class)), child_idx: None, behavior_idx: None, rest: () }
}

fn name_at(p: &AIProgram<()>, i: usize) -> String {
    p.item_at_index(i).unwrap().def.as_ref().unwrap().name.clone().unwrap_or_default()
}

fn child_values(p: &AIProgram<()>, i: usize) -> Vec<i32> {
    match &p.item_at_index(i).unwrap().child_idx {
        Some(v) => v.iter().map(|s| s.value).collect(),
        None => vec![],
    }
}

fn behavior_values(p: &AIProgram<()>, i: usize) -> Vec<i32> {
    p.item_at_index(i).unwrap().behavior_idx.as_ref().unwrap().iter().map(|s| s.value).collect()
}

fn demo_values(p: &AIProgram<()>) -> Vec<i32> {
    p.demos().iter().map(|s| s.value).collect()
}

fn demos(values: &[i32]) -> Vec<Slot> {
    slots(values).unwrap()
}

#[test]
fn offsets_are_ordered() {
    let p = AIProgram::new(
        vec![ai("A", &[]), ai("B", &[]), ai("C", &[])],
        vec![action("X", &[])],
        vec![plain("B1"), plain("B2")],
        vec![plain("Q1")],
        vec![],
    );
    assert_eq!(p.actions_offset(), 3);
    assert_eq!(p.behaviors_offset(), 4);
    assert_eq!(p.queries_offset(), 6);
    assert_eq!(p.len(), 7);
    assert_eq!(p.segment_offsets(), (3, 4, 6));
    assert_eq!(p.ais().len(), 3);
    assert_eq!(p.actions().len(), 1);
    assert_eq!(p.behaviors().len(), 2);
    assert_eq!(p.queries().len(), 1);
    assert_eq!(p.items().len(), 7);
    assert_eq!(p.category_at(0), Category::AI);
    assert_eq!(p.category_at(3), Category::Action);
    assert_eq!(p.category_at(5), Category::Behaviour);
    assert_eq!(p.category_at(6), Category::Query);
}

#[test]
fn empty_program_offsets() {
    let p: AIProgram<()> = AIProgram::new(vec![], vec![], vec![], vec![], vec![]);
    assert_eq!(p.actions_offset(), 0);
    assert_eq!(p.behaviors_offset(), 0);
    assert_eq!(p.queries_offset(), 0);
    assert_eq!(p.len(), 0);
    assert_eq!(p.roots().unwrap(), Vec::<usize>::new());
    assert!(p.to_tree(&Translations::new()).unwrap().is_empty());
}

#[test]
fn roots_and_tree_of_two_records() {
    let p = AIProgram::new(vec![ai("A", &[1]), ai("B", &[-1])], vec![], vec![], vec![], vec![]);
    assert_eq!(p.roots().unwrap(), vec![0]);
    let trees = p.to_tree(&Translations::new()).unwrap();
    assert_eq!(trees.len(), 1);
    assert_eq!(trees[0].0, "A");
    assert_eq!(trees[0].1, 0);
    assert_eq!(trees[0].2.len(), 1);
    assert_eq!(trees[0].2[0].0, "B");
    assert_eq!(trees[0].2[0].1, 1);
    assert!(trees[0].2[0].2.is_empty());
}

#[test]
fn roots_leave_out_every_child() {
    let p = AIProgram::new(
        vec![ai("A", &[2]), ai("B", &[-1]), ai("C", &[-1]), ai("D", &[1, -1])],
        vec![],
        vec![],
        vec![],
        vec![],
    );
    assert_eq!(p.roots().unwrap(), vec![0, 3]);
    assert!(p.is_child_referenced(1));
    assert!(p.is_child_referenced(2));
    assert!(!p.is_child_referenced(0));
}

#[test]
fn insert_ai_shifts_the_action() {
    let mut p = AIProgram::new(
        vec![ai("A", &[3]), ai("B", &[]), ai("C", &[])],
        vec![action("X", &[])],
        vec![],
        vec![],
        demos(&[3]),
    );
    let idx = p.add_entry(Category::AI, blank_ai(Category::AI, "SomeClass".to_string(), None, ())).unwrap();
    assert_eq!(idx, 3);
    assert_eq!(p.len(), 5);
    assert_eq!(p.actions_offset(), 4);
    assert_eq!(name_at(&p, 4), "X");
    assert_eq!(child_values(&p, 0), vec![4]);
    assert_eq!(demo_values(&p), vec![4]);
    let new = p.item_at_index(3).unwrap();
    assert_eq!(new.def.as_ref().unwrap().class_name.as_deref(), Some("SomeClass"));
}

#[test]
fn insert_returns_index_in_each_segment() {
    let mut p = AIProgram::new(
        vec![ai("A", &[])],
        vec![action("X", &[])],
        vec![plain("B")],
        vec![plain("Q")],
        vec![],
    );
    assert_eq!(p.add_entry(Category::Action, plain("X2")), Ok(2));
    assert_eq!(p.add_entry(Category::Behaviour, plain("B2")), Ok(4));
    assert_eq!(p.add_entry(Category::Query, plain("Q2")), Ok(6));
    assert_eq!(p.len(), 7);
    assert_eq!(p.queries_offset(), 5);
}

#[test]
fn insert_keeps_behavior_references() {
    let mut p = AIProgram::new(
        vec![ai("A", &[])],
        vec![action("X", &[0])],
        vec![plain("B0")],
        vec![],
        vec![],
    );
    p.add_entry(Category::Action, plain("Y")).unwrap();
    assert_eq!(behavior_values(&p, 1), vec![0]);
    let target = p.behaviors_offset() + 0;
    assert_eq!(p.entry_name_from_index(target), Ok("B0"));
}

#[test]
fn delete_clears_and_shifts() {
    let mut p = AIProgram::new(
        vec![ai("A", &[1, 2]), ai("B", &[]), ai("C", &[])],
        vec![],
        vec![],
        vec![],
        demos(&[2]),
    );
    assert_eq!(p.delete_entry(1), Ok(()));
    assert_eq!(p.len(), 2);
    assert_eq!(name_at(&p, 0), "A");
    assert_eq!(name_at(&p, 1), "C");
    assert_eq!(child_values(&p, 0), vec![-1, 1]);
    assert_eq!(demo_values(&p), vec![1]);
}

#[test]
fn delete_behavior_clears_behavior_references() {
    let mut p = AIProgram::new(
        vec![ai("A", &[])],
        vec![action("X", &[0, 1])],
        vec![plain("B0"), plain("B1")],
        vec![],
        vec![],
    );
    assert_eq!(p.delete_entry(2), Ok(()));
    assert_eq!(behavior_values(&p, 1), vec![-1, 0]);
}

#[test]
fn delete_out_of_range_changes_nothing() {
    let mut p = AIProgram::new(vec![ai("A", &[])], vec![], vec![], vec![], vec![]);
    let before = p.clone();
    assert_eq!(p.delete_entry(5), Err(ProgramError::OutOfRange));
    assert!(p == before);
}

#[test]
fn insert_then_delete_round_trip() {
    let before = AIProgram::new(
        vec![ai("A", &[1, 3]), ai("B", &[-1])],
        vec![action("X", &[0])],
        vec![plain("B0")],
        vec![plain("Q0")],
        demos(&[2, 3]),
    );
    let mut p = before.clone();
    let idx = p.add_entry(Category::AI, blank_ai(Category::AI, "K".to_string(), Some(&vec![]), ())).unwrap();
    p.delete_entry(idx).unwrap();
    assert_eq!(p.len(), before.len());
    for i in 0..p.len() {
        let a = before.item_at_index(i).unwrap();
        let b = p.item_at_index(i).unwrap();
        assert!(a.def == b.def);
        assert!(a.child_idx == b.child_idx);
        assert!(a.behavior_idx == b.behavior_idx);
    }
    assert_eq!(demo_values(&p), demo_values(&before));
}

#[test]
fn references_stay_in_range() {
    let mut p = AIProgram::new(
        vec![ai("A", &[1, 2]), ai("B", &[2]), ai("C", &[])],
        vec![action("X", &[0])],
        vec![plain("B0")],
        vec![],
        demos(&[3]),
    );
    p.delete_entry(2).unwrap();
    p.add_entry(Category::Action, plain("Y")).unwrap();
    p.delete_entry(0).unwrap();
    p.add_entry(Category::AI, blank_ai(Category::AI, "K".to_string(), Some(&vec![]), ())).unwrap();
    let n = p.len() as i32;
    for i in 0..p.actions_offset() {
        for v in child_values(&p, i) {
            assert!(v < n);
        }
    }
    for v in demo_values(&p) {
        assert!(v < n);
    }
    assert_eq!(demo_values(&p), vec![2]);
    assert_eq!(name_at(&p, 2), "X");
}

#[test]
fn references_are_found() {
    let p = AIProgram::new(
        vec![ai("A", &[1]), ai("B", &[])],
        vec![action("X", &[0])],
        vec![plain("B0")],
        vec![],
        demos(&[1]),
    );
    let r = p.references(1).unwrap();
    assert_eq!(r.ai_children, vec![(0, 100)]);
    assert_eq!(r.demos, vec![100]);
    assert!(r.ai_behaviours.is_empty());
    let r = p.references(3).unwrap();
    assert_eq!(r.action_behaviours, vec![(2, 100)]);
    assert!(r.ai_children.is_empty());
}

#[test]
fn slot_names_are_renumbered() {
    let mut p = AIProgram::new(vec![ai("A", &[]), ai("B", &[])], vec![], vec![], vec![], vec![]);
    p.add_entry(Category::AI, blank_ai(Category::AI, "K".to_string(), Some(&vec![]), ())).unwrap();
    for i in 0..3 {
        let key = p.item_at_index(i).unwrap().key;
        assert_eq!(key, roead::aamp::hash_name(&format!("AI_{}", i)));
    }
    p.delete_entry(0).unwrap();
    assert_eq!(p.item_at_index(1).unwrap().key, roead::aamp::hash_name("AI_1"));
}

#[test]
fn tree_idempotent() {
    let p = AIProgram::new(vec![ai("A", &[1, 2]), ai("B", &[]), ai("C", &[])], vec![], vec![], vec![], vec![]);
    let t = Translations::new();
    assert_eq!(p.roots(), p.roots());
    let first = format!("{:?}", p.to_tree(&t));
    let second = format!("{:?}", p.to_tree(&t));
    assert_eq!(first, second);
}

#[test]
fn tree_reports_cycle() {
    let p = AIProgram::new(vec![ai("R", &[1]), ai("A", &[2]), ai("B", &[1])], vec![], vec![], vec![], vec![]);
    assert_eq!(p.roots().unwrap(), vec![0]);
    assert_eq!(p.to_tree(&Translations::new()).unwrap_err(), ProgramError::CycleDetected);
}

#[test]
fn tree_reports_dangling_child() {
    let p = AIProgram::new(vec![ai("R", &[7])], vec![], vec![], vec![], vec![]);
    assert_eq!(p.to_tree(&Translations::new()).unwrap_err(), ProgramError::OutOfRange);
}

#[test]
fn tree_uses_translations() {
    let mut p = AIProgram::new(vec![ai("A", &[])], vec![], vec![], vec![], vec![]);
    p.item_mut_at_index(0).unwrap().def.as_mut().unwrap().name = None;
    let mut t = Translations::new();
    t.insert("Class".to_string(), "Klasse".to_string());
    let trees = p.to_tree(&t).unwrap();
    assert_eq!(trees[0].0, "Klasse");
}

#[test]
fn entry_name_errors() {
    let t = Translations::new();
    let no_def: Entry<()> = Entry { key: 0, def: None, child_idx: None, behavior_idx: None, rest: () };
    assert_eq!(AIProgram::entry_name(&no_def, &t), Err(ProgramError::MissingRequiredObject));
    let nameless = Entry { key: 0, def: def(None, None), child_idx: None, behavior_idx: None, rest: () };
    assert_eq!(AIProgram::entry_name(&nameless, &t), Err(ProgramError::UnresolvableName));
    assert_eq!(AIProgram::entry_name(&ai("A", &[]), &t), Ok("A".to_string()));
    assert_eq!(AIProgram::entry_name(&plain("P"), &t), Ok("P".to_string()));
}

#[test]
fn entry_name_from_index_reads_class() {
    let p = AIProgram::new(vec![ai("A", &[])], vec![], vec![], vec![], vec![]);
    assert_eq!(p.entry_name_from_index(0), Ok("Class"));
    assert_eq!(p.entry_name_from_index(1), Err(ProgramError::OutOfRange));
    assert!(p.item_at_index(1).is_err());
}

#[test]
fn translations_last_pair_wins() {
    let mut t = Translations::new();
    t.insert("a".to_string(), "x".to_string());
    t.insert("a".to_string(), "y".to_string());
    assert_eq!(t.translate(&"a".to_string()), "y");
    assert_eq!(t.translate(&"b".to_string()), "b");
}

#[test]
fn update_names_propagates_group() {
    let mut p = AIProgram::new(vec![ai("A", &[1]), ai("B", &[2]), ai("C", &[-1])], vec![], vec![], vec![], vec![]);
    assert_eq!(p.update_names(0, "X".to_string(), "P".to_string()), Ok(()));
    let d0 = p.item_at_index(0).unwrap().def.clone().unwrap();
    assert_eq!(d0.name.as_deref(), Some("X"));
    assert_eq!(d0.group_name.as_deref(), Some("P"));
    let d1 = p.item_at_index(1).unwrap().def.clone().unwrap();
    assert_eq!(d1.name.as_deref(), Some("B"));
    assert_eq!(d1.group_name.as_deref(), Some("X"));
    let d2 = p.item_at_index(2).unwrap().def.clone().unwrap();
    assert_eq!(d2.group_name.as_deref(), Some("B"));
}

#[test]
fn update_names_stops_on_cycle() {
    let mut p = AIProgram::new(vec![ai("A", &[1]), ai("B", &[0])], vec![], vec![], vec![], vec![]);
    assert_eq!(p.update_names(0, "X".to_string(), "P".to_string()), Ok(()));
    let d0 = p.item_at_index(0).unwrap().def.clone().unwrap();
    assert_eq!(d0.group_name.as_deref(), Some("P"));
    let d1 = p.item_at_index(1).unwrap().def.clone().unwrap();
    assert_eq!(d1.group_name.as_deref(), Some("X"));
}

#[test]
fn update_names_fails_before_changing() {
    let mut p = AIProgram::new(vec![ai("A", &[5])], vec![], vec![], vec![], vec![]);
    let before = p.clone();
    assert_eq!(p.update_names(0, "X".to_string(), "P".to_string()), Err(ProgramError::OutOfRange));
    assert!(p == before);
    assert_eq!(p.update_names(9, "X".to_string(), "P".to_string()), Err(ProgramError::OutOfRange));
    let mut q = AIProgram::new(
        vec![ai("A", &[1]), Entry { key: 0, def: None, child_idx: None, behavior_idx: None, rest: () }],
        vec![],
        vec![],
        vec![],
        vec![],
    );
    assert_eq!(q.update_names(0, "X".to_string(), "P".to_string()), Err(ProgramError::MissingRequiredObject));
}

#[test]
fn blank_ai_seeds_children() {
    let names = vec!["a".to_string(), "b".to_string(), "a".to_string()];
    let e = blank_ai(Category::AI, "Cls".to_string(), Some(&names), 7u8);
    let d = e.def.clone().unwrap();
    assert_eq!(d.name.as_deref(), Some(""));
    assert_eq!(d.group_name.as_deref(), Some(""));
    assert_eq!(d.class_name.as_deref(), Some("Cls"));
    let s = e.child_idx.clone().unwrap();
    assert_eq!(
        s,
        vec![
            Slot { key: roead::aamp::hash_name("a"), value: -1 },
            Slot { key: roead::aamp::hash_name("b"), value: -1 }
        ]
    );
    assert_eq!(e.rest, 7);
    let q = blank_ai(Category::Behaviour, "Cls".to_string(), None, ());
    assert!(q.child_idx.is_none());
    assert!(q.def.unwrap().name.is_none());
}

#[test]
fn category_labels() {
    assert_eq!(Category::AI.label(), "AI");
    assert_eq!(Category::Action.label(), "Action");
    assert_eq!(Category::Behaviour.label(), "Behavior");
    assert_eq!(Category::Query.label(), "Query");
    assert_eq!(ProgramError::OutOfRange.message(), "Missing entry index");
}

#[test]
fn str_range_finds_last_word() {
    assert_eq!(str_range("foo bar", "bar"), 4..7);
    assert_eq!(str_range("ab ab", "ab"), 3..5);
    assert_eq!(str_range("abc", "x"), 3..3);
    assert_eq!(str_range("ab", "abc"), 2..2);
}

#[test]
fn candidates_matching() {
    assert!(contains_text("MoveTo", "Move"));
    assert!(!contains_text("Stay", "Move"));
    assert!(contains_text("x", ""));
    let cs = vec!["Move", "MoveTo", "Stay", "Move"];
    assert_eq!(match_candidates(&cs, "Move"), (3, Some(2)));
    assert_eq!(match_candidates(&cs, "Mo"), (3, None));
    assert_eq!(match_candidates(&cs, "zz"), (0, None));
}

#[test]
fn selection_follows_keys() {
    let mut s = AcState::default();
    assert_eq!(s.selection(), Some(0));
    s.on_keys(true, false);
    assert_eq!(s.selection(), Some(1));
    s.on_keys(false, true);
    assert_eq!(s.selection(), Some(0));
    s.on_keys(false, true);
    assert_eq!(s.selection(), None);
    s.input_changed = false;
    s.on_keys(false, false);
    assert_eq!(s.selection(), None);
    s.on_keys(true, false);
    assert_eq!(s.selection(), Some(0));
    s.on_keys(true, false);
    s.on_keys(true, false);
    s.fit_to_matches(2, None);
    assert_eq!(s.selection(), Some(1));
    s.input_changed = true;
    s.fit_to_matches(3, Some(2));
    assert_eq!(s.selection(), Some(2));
}

#[test]
fn numbered_names_are_recovered() {
    assert_eq!(try_numbered_name(roead::aamp::hash_name("Action_5")), "Action_5");
    assert_eq!(try_numbered_name(roead::aamp::hash_name("Query_1000")), "Query_1000");
    assert_eq!(try_numbered_name(roead::aamp::hash_name("AI_0")), "AI_0");
    let other = roead::aamp::hash_name("SomethingElse");
    assert_eq!(try_numbered_name(other), other.to_string());
}

#[test]
fn reindex_points_references_elsewhere() {
    let mut p = AIProgram::new(
        vec![ai("A", &[1]), ai("B", &[])],
        vec![action("X", &[0])],
        vec![plain("B0")],
        vec![],
        demos(&[1]),
    );
    p.update_indexes(3, -1).unwrap();
    assert_eq!(behavior_values(&p, 2), vec![-1]);
    p.update_indexes(1, 0).unwrap();
    assert_eq!(child_values(&p, 0), vec![0]);
    assert_eq!(demo_values(&p), vec![0]);
    assert_eq!(p.len(), 4);
}

#[test]
fn name_is_shown_untranslated() {
    let p = AIProgram::new(vec![ai("A", &[])], vec![], vec![], vec![], vec![]);
    let mut t = Translations::new();
    t.insert("A".to_string(), "Alpha".to_string());
    t.insert("Class".to_string(), "Klasse".to_string());
    assert_eq!(AIProgram::entry_name(p.item_at_index(0).unwrap(), &t), Ok("A".to_string()));
    assert_eq!(p.to_tree(&t).unwrap()[0].0, "A");
    assert_eq!(AIProgram::entry_name(&plain("Class"), &t), Ok("Klasse".to_string()));
}

#[test]
fn missing_child_object_is_reported() {
    let bare: Entry<()> = Entry { key: 0, def: def(Some("B"), Some("C")), child_idx: None, behavior_idx: None, rest: () };
    let mut p = AIProgram::new(vec![ai("A", &[1]), bare], vec![action("X", &[])], vec![], vec![], demos(&[2]));
    let before = p.clone();
    assert_eq!(p.delete_entry(2), Err(ProgramError::MissingRequiredObject));
    assert!(p == before);
    assert_eq!(p.delete_entry(9), Err(ProgramError::OutOfRange));
    assert_eq!(p.add_entry(Category::Action, plain("Y")), Err(ProgramError::MissingRequiredObject));
    assert!(p == before);
    assert_eq!(p.update_indexes(2, -1), Err(ProgramError::MissingRequiredObject));
    assert!(p == before);
    assert!(matches!(p.references(1), Err(ProgramError::MissingRequiredObject)));
    assert_eq!(p.roots(), Err(ProgramError::MissingRequiredObject));
    assert_eq!(p.to_tree(&Translations::new()).unwrap_err(), ProgramError::MissingRequiredObject);
    assert!(!p.ais_have_children());
}

#[test]
fn translations_keep_one_pair_per_name() {
    let mut t = Translations::new();
    t.insert("a".to_string(), "x".to_string());
    t.insert("b".to_string(), "z".to_string());
    t.insert("a".to_string(), "y".to_string());
    assert_eq!(t.translate(&"a".to_string()), "y");
    assert_eq!(t.translate(&"b".to_string()), "z");
}

#[test]
fn demo_references_in_slot_order() {
    let p = AIProgram::new(vec![ai("A", &[])], vec![action("X", &[])], vec![], vec![], demos(&[1, 0, 1]));
    assert_eq!(p.references(1).unwrap().demos, vec![100, 102]);
}
