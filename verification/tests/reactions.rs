use mezon_store::reactions::{
    aggregate_reactions, apply_reaction_event, rollback_reaction, Reaction, ReactionDesc,
};

fn desc(emoji_id: &str, emoji: &str, sender: &str, count: u32, action: bool) -> ReactionDesc {
    ReactionDesc {
        emoji_id: emoji_id.into(),
        emoji: emoji.into(),
        sender_id: sender.into(),
        count,
        action,
    }
}

fn summary(rs: &[Reaction]) -> Vec<(String, u32, Vec<(String, u32)>)> {
    rs.iter()
        .map(|r| {
            (
                r.key.clone(),
                r.count,
                r.senders.iter().map(|s| (s.sender_id.clone(), s.count)).collect(),
            )
        })
        .collect()
}

#[test]
fn aggregate_groups_by_key_and_skips_removals() {
    let rs = aggregate_reactions(&[
        desc("11", "smile", "a", 0, false),
        desc("0", "heart", "b", 2, false),
        desc("11", "smile", "c", 3, false),
        desc("11", "smile", "a", 5, false),
        desc("12", "x", "d", 1, true),
        desc("", "", "e", 1, false),
    ]);
    assert_eq!(
        summary(&rs),
        vec![
            ("11".into(), 8, vec![("a".into(), 5), ("c".into(), 3)]),
            ("heart".into(), 2, vec![("b".into(), 2)]),
        ]
    );
}

#[test]
fn adding_and_removing_reactions_updates_counts() {
    let mut rs = aggregate_reactions(&[desc("11", "smile", "a", 1, false)]);
    apply_reaction_event(&mut rs, "11", "smile", "b", false);
    apply_reaction_event(&mut rs, "11", "smile", "b", false);
    assert_eq!(summary(&rs), vec![("11".into(), 3, vec![("a".into(), 1), ("b".into(), 2)])]);
    apply_reaction_event(&mut rs, "0", "wave", "a", false);
    assert_eq!(rs.len(), 2);
    assert_eq!(rs[1].key, "wave");
    apply_reaction_event(&mut rs, "11", "smile", "b", true);
    apply_reaction_event(&mut rs, "11", "smile", "a", true);
    assert_eq!(summary(&rs), vec![("wave".into(), 1, vec![("a".into(), 1)])]);
    apply_reaction_event(&mut rs, "", "", "a", false);
    assert_eq!(rs.len(), 1);
}

#[test]
fn rollback_undoes_an_optimistic_add() {
    let before = aggregate_reactions(&[desc("11", "smile", "a", 2, false)]);
    let mut rs = before.clone();
    apply_reaction_event(&mut rs, "11", "smile", "a", false);
    rollback_reaction(&mut rs, "11", "smile", "a", false);
    assert_eq!(summary(&rs), summary(&before));
    apply_reaction_event(&mut rs, "0", "new", "z", false);
    rollback_reaction(&mut rs, "0", "new", "z", false);
    assert_eq!(summary(&rs), summary(&before));
}

#[test]
fn rollback_of_a_removal_adds_the_reaction_back() {
    let mut rs = aggregate_reactions(&[desc("11", "smile", "a", 1, false)]);
    apply_reaction_event(&mut rs, "11", "smile", "a", true);
    assert!(rs.is_empty());
    rollback_reaction(&mut rs, "11", "smile", "a", true);
    assert_eq!(summary(&rs), vec![("11".into(), 1, vec![("a".into(), 1)])]);
}
