use fleet_attention::skill::{count_covered_skills, SkillTag};

#[test]
fn test_skill_tag_all_count() {
    let all: Vec<_> = SkillTag::all().into_iter().collect();
    assert_eq!(all.len(), SkillTag::COUNT);
}

#[test]
fn test_skill_tag_index_unique() {
    let indices: std::collections::HashSet<usize> =
        SkillTag::all().into_iter().map(|s| s.index()).collect();
    assert_eq!(indices.len(), SkillTag::COUNT);
}

#[test]
fn test_skill_tag_from_str_label() {
    assert_eq!(SkillTag::from_str_label("coding"), Some(SkillTag::Coding));
    assert_eq!(SkillTag::from_str_label("unknown"), None);
}

#[test]
fn skill_labels_round_trip() {
    for tag in SkillTag::all() {
        assert_eq!(SkillTag::from_str_label(tag.as_str()), Some(tag));
    }
}

#[test]
fn skill_labels_are_exact() {
    assert_eq!(SkillTag::DataAnalysis.as_str(), "data_analysis");
    assert_eq!(SkillTag::WebResearch.as_str(), "web_research");
    assert_eq!(SkillTag::from_str_label("Coding"), None);
    assert_eq!(SkillTag::from_str_label("coding "), None);
    assert_eq!(SkillTag::from_str_label(""), None);
    assert_eq!(SkillTag::from_str_label("documentation"), Some(SkillTag::Documentation));
}

#[test]
fn skill_all_is_in_index_order() {
    let all = SkillTag::all();
    for (i, tag) in all.iter().enumerate() {
        assert_eq!(tag.index(), i);
    }
    assert_eq!(all[0], SkillTag::Coding);
    assert_eq!(all[11], SkillTag::Documentation);
    assert_eq!(SkillTag::Security.index(), 10);
}

#[test]
fn skill_coverage_counts_distinct_tags() {
    assert_eq!(count_covered_skills(&[]), 0);
    assert_eq!(
        count_covered_skills(&[SkillTag::Coding, SkillTag::Testing, SkillTag::Coding, SkillTag::Vision]),
        3
    );
    let all = SkillTag::all();
    assert_eq!(count_covered_skills(&all), SkillTag::COUNT);
}
