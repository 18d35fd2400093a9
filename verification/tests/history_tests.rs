use fleet_attention::history::{category_tally, count_successes, TaskOutcome};
use fleet_attention::skill::SkillTag;

fn outcome(category: SkillTag, success: bool) -> TaskOutcome {
    TaskOutcome { category, success }
}

#[test]
fn tally_successes() {
    let record = vec![
        outcome(SkillTag::Coding, true),
        outcome(SkillTag::Coding, true),
        outcome(SkillTag::Coding, false),
    ];
    assert_eq!(count_successes(&record), 2);
    assert_eq!(count_successes(&[]), 0);
}

#[test]
fn tally_by_category() {
    let record = vec![
        outcome(SkillTag::Coding, true),
        outcome(SkillTag::Vision, false),
        outcome(SkillTag::Coding, false),
        outcome(SkillTag::Coding, true),
    ];
    assert_eq!(category_tally(&record, SkillTag::Coding), (2, 3));
    assert_eq!(category_tally(&record, SkillTag::Vision), (0, 1));
    assert_eq!(category_tally(&record, SkillTag::Mathematics), (0, 0));
}
