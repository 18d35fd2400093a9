//! Skill tags that agents possess and tasks require.

use vstd::prelude::*;
use crate::text::same_chars;

verus! {

/// Skill tags that agents can possess and tasks can require.
/// Covers the main domains a fleet agent might operate in.
#[derive(Clone, Copy, Debug, PartialEq, Eq, Hash, Structural)]
pub enum SkillTag {
    /// Code generation, review, debugging
    Coding,
    /// Natural language understanding and generation
    Language,
    /// Data analysis and visualization
    DataAnalysis,
    /// Mathematical reasoning and computation
    Mathematics,
    /// Image/video understanding and generation
    Vision,
    /// Web browsing and research
    WebResearch,
    /// Database operations and queries
    Database,
    /// System administration and DevOps
    DevOps,
    /// Creative writing and design
    Creative,
    /// Testing and quality assurance
    Testing,
    /// Security analysis and auditing
    Security,
    /// Documentation
    Documentation,
}

/// Position of a tag in the canonical ordering.
pub open spec fn skill_index(t: SkillTag) -> nat {
    match t {
        SkillTag::Coding => 0,
        SkillTag::Language => 1,
        SkillTag::DataAnalysis => 2,
        SkillTag::Mathematics => 3,
        SkillTag::Vision => 4,
        SkillTag::WebResearch => 5,
        SkillTag::Database => 6,
        SkillTag::DevOps => 7,
        SkillTag::Creative => 8,
        SkillTag::Testing => 9,
        SkillTag::Security => 10,
        SkillTag::Documentation => 11,
    }
}

/// The canonical string label of a tag.
pub open spec fn skill_label(t: SkillTag) -> Seq<char> {
    match t {
        SkillTag::Coding => "coding"@,
        SkillTag::Language => "language"@,
        SkillTag::DataAnalysis => "data_analysis"@,
        SkillTag::Mathematics => "mathematics"@,
        SkillTag::Vision => "vision"@,
        SkillTag::WebResearch => "web_research"@,
        SkillTag::Database => "database"@,
        SkillTag::DevOps => "devops"@,
        SkillTag::Creative => "creative"@,
        SkillTag::Testing => "testing"@,
        SkillTag::Security => "security"@,
        SkillTag::Documentation => "documentation"@,
    }
}

/// The tag whose label is `s`, if any.
pub open spec fn skill_from_label(s: Seq<char>) -> Option<SkillTag> {
    if s == "coding"@ {
        Some(SkillTag::Coding)
    } else if s == "language"@ {
        Some(SkillTag::Language)
    } else if s == "data_analysis"@ {
        Some(SkillTag::DataAnalysis)
    } else if s == "mathematics"@ {
        Some(SkillTag::Mathematics)
    } else if s == "vision"@ {
        Some(SkillTag::Vision)
    } else if s == "web_research"@ {
        Some(SkillTag::WebResearch)
    } else if s == "database"@ {
        Some(SkillTag::Database)
    } else if s == "devops"@ {
        Some(SkillTag::DevOps)
    } else if s == "creative"@ {
        Some(SkillTag::Creative)
    } else if s == "testing"@ {
        Some(SkillTag::Testing)
    } else if s == "security"@ {
        Some(SkillTag::Security)
    } else if s == "documentation"@ {
        Some(SkillTag::Documentation)
    } else {
        None
    }
}

/// The tags' names, in index order: position `i` holds the name of the tag
/// whose index is `i`.
pub open spec fn label_table() -> Seq<Seq<char>> {
    seq![
        "coding"@,
        "language"@,
        "data_analysis"@,
        "mathematics"@,
        "vision"@,
        "web_research"@,
        "database"@,
        "devops"@,
        "creative"@,
        "testing"@,
        "security"@,
        "documentation"@,
    ]
}

/// All tags in canonical order.
pub open spec fn all_skills() -> Seq<SkillTag> {
    seq![
        SkillTag::Coding,
        SkillTag::Language,
        SkillTag::DataAnalysis,
        SkillTag::Mathematics,
        SkillTag::Vision,
        SkillTag::WebResearch,
        SkillTag::Database,
        SkillTag::DevOps,
        SkillTag::Creative,
        SkillTag::Testing,
        SkillTag::Security,
        SkillTag::Documentation,
    ]
}

impl SkillTag {
    /// Total number of known skill tags (used for embedding dimension)
    pub const COUNT: usize = 12;

    /// Convert to a canonical string label
    pub fn as_str(&self) -> (r: &'static str)
        ensures
            r@ == skill_label(*self),
            r@ == label_table()[skill_index(*self) as int],
    {
        match self {
            SkillTag::Coding => "coding",
            SkillTag::Language => "language",
            SkillTag::DataAnalysis => "data_analysis",
            SkillTag::Mathematics => "mathematics",
            SkillTag::Vision => "vision",
            SkillTag::WebResearch => "web_research",
            SkillTag::Database => "database",
            SkillTag::DevOps => "devops",
            SkillTag::Creative => "creative",
            SkillTag::Testing => "testing",
            SkillTag::Security => "security",
            SkillTag::Documentation => "documentation",
        }
    }

    /// Parse a skill tag from string
    pub fn from_str_label(s: &str) -> (r: Option<SkillTag>)
        ensures
            r == skill_from_label(s@),
            forall|i: int| 0 <= i < SkillTag::COUNT && s@ == #[trigger] label_table()[i] ==> r == Some(all_skills()[i]),
    {
        proof {
            assert forall|i: int| 0 <= i < SkillTag::COUNT && s@ == #[trigger] label_table()[i]
                implies skill_from_label(s@) == Some(all_skills()[i]) by {
                lemma_labels_follow_index(SkillTag::Coding, i);
            }
        }
        if same_chars(s, "coding") {
            Some(SkillTag::Coding)
        } else if same_chars(s, "language") {
            Some(SkillTag::Language)
        } else if same_chars(s, "data_analysis") {
            Some(SkillTag::DataAnalysis)
        } else if same_chars(s, "mathematics") {
            Some(SkillTag::Mathematics)
        } else if same_chars(s, "vision") {
            Some(SkillTag::Vision)
        } else if same_chars(s, "web_research") {
            Some(SkillTag::WebResearch)
        } else if same_chars(s, "database") {
            Some(SkillTag::Database)
        } else if same_chars(s, "devops") {
            Some(SkillTag::DevOps)
        } else if same_chars(s, "creative") {
            Some(SkillTag::Creative)
        } else if same_chars(s, "testing") {
            Some(SkillTag::Testing)
        } else if same_chars(s, "security") {
            Some(SkillTag::Security)
        } else if same_chars(s, "documentation") {
            Some(SkillTag::Documentation)
        } else {
            None
        }
    }

    /// Get index in the canonical skill ordering (for embedding)
    pub fn index(&self) -> (r: usize)
        ensures
            r == skill_index(*self),
            r < Self::COUNT,
    {
        match self {
            SkillTag::Coding => 0,
            SkillTag::Language => 1,
            SkillTag::DataAnalysis => 2,
            SkillTag::Mathematics => 3,
            SkillTag::Vision => 4,
            SkillTag::WebResearch => 5,
            SkillTag::Database => 6,
            SkillTag::DevOps => 7,
            SkillTag::Creative => 8,
            SkillTag::Testing => 9,
            SkillTag::Security => 10,
            SkillTag::Documentation => 11,
        }
    }

    /// All skill tags in canonical order
    pub fn all() -> (r: Vec<SkillTag>)
        ensures
            r@ == all_skills(),
    {
        let r = vec![
            SkillTag::Coding,
            SkillTag::Language,
            SkillTag::DataAnalysis,
            SkillTag::Mathematics,
            SkillTag::Vision,
            SkillTag::WebResearch,
            SkillTag::Database,
            SkillTag::DevOps,
            SkillTag::Creative,
            SkillTag::Testing,
            SkillTag::Security,
            SkillTag::Documentation,
        ];
        assert(r@ =~= all_skills());
        r
    }
}

/// Every tag is named by the entry of the name table at its index, and
/// parsing any name of the table gives the tag at that index.
pub proof fn lemma_labels_follow_index(t: SkillTag, i: int)
    requires
        0 <= i < SkillTag::COUNT,
    ensures
        label_table().len() == SkillTag::COUNT,
        skill_label(t) == label_table()[skill_index(t) as int],
        skill_from_label(label_table()[i]) == Some(all_skills()[i]),
        skill_label(all_skills()[i]) == label_table()[i],
{
    lemma_label_roundtrip(all_skills()[i]);
}

/// Parsing the label of a tag gives the tag back.
pub proof fn lemma_label_roundtrip(t: SkillTag)
    ensures
        skill_from_label(skill_label(t)) == Some(t),
{
    reveal_strlit("coding");
    reveal_strlit("language");
    reveal_strlit("data_analysis");
    reveal_strlit("mathematics");
    reveal_strlit("vision");
    reveal_strlit("web_research");
    reveal_strlit("database");
    reveal_strlit("devops");
    reveal_strlit("creative");
    reveal_strlit("testing");
    reveal_strlit("security");
    reveal_strlit("documentation");
    assert("coding"@.len() == 6 && "coding"@[0] == 'c' && "coding"@[1] == 'o');
    assert("language"@.len() == 8 && "language"@[0] == 'l' && "language"@[1] == 'a');
    assert("data_analysis"@.len() == 13 && "data_analysis"@[0] == 'd' && "data_analysis"@[1] == 'a');
    assert("mathematics"@.len() == 11 && "mathematics"@[0] == 'm' && "mathematics"@[1] == 'a');
    assert("vision"@.len() == 6 && "vision"@[0] == 'v' && "vision"@[1] == 'i');
    assert("web_research"@.len() == 12 && "web_research"@[0] == 'w' && "web_research"@[1] == 'e');
    assert("database"@.len() == 8 && "database"@[0] == 'd' && "database"@[1] == 'a');
    assert("devops"@.len() == 6 && "devops"@[0] == 'd' && "devops"@[1] == 'e');
    assert("creative"@.len() == 8 && "creative"@[0] == 'c' && "creative"@[1] == 'r');
    assert("testing"@.len() == 7 && "testing"@[0] == 't' && "testing"@[1] == 'e');
    assert("security"@.len() == 8 && "security"@[0] == 's' && "security"@[1] == 'e');
    assert("documentation"@.len() == 13 && "documentation"@[0] == 'd' && "documentation"@[1] == 'o');
}

/// Distinct tags have distinct indices, and every index is below the tag count.
pub proof fn lemma_index_injective(a: SkillTag, b: SkillTag)
    ensures
        skill_index(a) < SkillTag::COUNT,
        skill_index(a) == skill_index(b) ==> a == b,
{
}

/// The list of all tags has one entry per index, in index order, and holds every tag.
pub proof fn lemma_all_skills_in_index_order(t: SkillTag)
    ensures
        all_skills().len() == SkillTag::COUNT,
        forall|i: int| 0 <= i < all_skills().len() ==> skill_index(#[trigger] all_skills()[i]) == i,
        all_skills()[skill_index(t) as int] == t,
{
}

/// How many of the candidate tags occur in `tags`.
pub open spec fn count_present(candidates: Seq<SkillTag>, tags: Seq<SkillTag>) -> nat
    decreases candidates.len(),
{
    if candidates.len() == 0 {
        0
    } else {
        count_present(candidates.drop_last(), tags) + if tags.contains(candidates.last()) { 1nat } else { 0nat }
    }
}

/// Never more tags are present than there are candidates.
pub proof fn lemma_count_present_bounded(candidates: Seq<SkillTag>, tags: Seq<SkillTag>)
    ensures
        count_present(candidates, tags) <= candidates.len(),
    decreases candidates.len(),
{
    if candidates.len() > 0 {
        lemma_count_present_bounded(candidates.drop_last(), tags);
    }
}

/// A sequence with one more element contains exactly what it contained, and
/// that element.
proof fn lemma_push_contains(tags: Seq<SkillTag>, t: SkillTag, c: SkillTag)
    ensures
        tags.push(t).contains(c) == (tags.contains(c) || c == t),
{
    if tags.contains(c) {
        let i = choose|i: int| 0 <= i < tags.len() && tags[i] == c;
        assert(tags.push(t)[i] == c);
    }
    if c == t {
        assert(tags.push(t)[tags.len() as int] == c);
    }
    if tags.push(t).contains(c) {
        let i = choose|i: int| 0 <= i < tags.push(t).len() && tags.push(t)[i] == c;
        if i < tags.len() {
            assert(tags[i] == c);
        }
    }
}

/// One more candidate adds one to the count exactly when that candidate
/// occurs somewhere in `tags`, however long `tags` is.
pub proof fn lemma_count_present_push_candidate(candidates: Seq<SkillTag>, c: SkillTag, tags: Seq<SkillTag>)
    ensures
        count_present(candidates.push(c), tags) == count_present(candidates, tags) + if tags.contains(c) { 1nat } else { 0nat },
{
    assert(candidates.push(c).drop_last() =~= candidates);
}

/// Adding a tag that is already present, or that is not a candidate, leaves the
/// count unchanged.
pub proof fn lemma_count_present_push_known_tag(candidates: Seq<SkillTag>, tags: Seq<SkillTag>, t: SkillTag)
    requires
        tags.contains(t) || !candidates.contains(t),
    ensures
        count_present(candidates, tags.push(t)) == count_present(candidates, tags),
    decreases candidates.len(),
{
    if candidates.len() > 0 {
        let rest = candidates.drop_last();
        let c = candidates.last();
        if !tags.contains(t) {
            assert(c != t);
            if rest.contains(t) {
                let i = choose|i: int| 0 <= i < rest.len() && rest[i] == t;
                assert(candidates[i] == t);
            }
        }
        lemma_count_present_push_known_tag(rest, tags, t);
        lemma_push_contains(tags, t, c);
    }
}

/// Adding a tag that is one of the (distinct) candidates and not yet present
/// raises the count by exactly one, however long `tags` already is.
pub proof fn lemma_count_present_push_new_tag(candidates: Seq<SkillTag>, tags: Seq<SkillTag>, t: SkillTag)
    requires
        candidates.no_duplicates(),
        candidates.contains(t),
        !tags.contains(t),
    ensures
        count_present(candidates, tags.push(t)) == count_present(candidates, tags) + 1,
    decreases candidates.len(),
{
    let rest = candidates.drop_last();
    let c = candidates.last();
    lemma_push_contains(tags, t, c);
    if c == t {
        assert(!rest.contains(t)) by {
            if rest.contains(t) {
                let i = choose|i: int| 0 <= i < rest.len() && rest[i] == t;
                assert(candidates[i] == candidates[candidates.len() - 1]);
            }
        }
        lemma_count_present_push_known_tag(rest, tags, t);
    } else {
        let i = choose|i: int| 0 <= i < candidates.len() && candidates[i] == t;
        assert(i < rest.len());
        assert(rest[i] == t);
        assert(rest.no_duplicates());
        lemma_count_present_push_new_tag(rest, tags, t);
    }
}

/// The known tags are distinct, so the coverage count counts each tag once.
pub proof fn lemma_all_skills_distinct()
    ensures
        all_skills().no_duplicates(),
        forall|t: SkillTag| #[trigger] all_skills().contains(t),
{
    assert forall|t: SkillTag| #[trigger] all_skills().contains(t) by {
        assert(all_skills()[skill_index(t) as int] == t);
    }
}

/// Whether `t` occurs in `tags`.
fn contains_tag(tags: &[SkillTag], t: SkillTag) -> (r: bool)
    ensures
        r == tags@.contains(t),
{
    let n = tags.len();
    let mut i: usize = 0;
    while i < n
        invariant
            n == tags@.len(),
            i <= n,
            forall|j: int| 0 <= j < i ==> tags@[j] != t,
        decreases n - i,
    {
        if tags[i] == t {
            return true;
        }
        i = i + 1;
    }
    false
}

/// Number of distinct skill tags among `tags`: how many of the known tags
/// are covered.
pub fn count_covered_skills(tags: &[SkillTag]) -> (r: usize)
    ensures
        r == count_present(all_skills(), tags@),
        r <= SkillTag::COUNT,
{
    let all = SkillTag::all();
    let mut count: usize = 0;
    let mut k: usize = 0;
    while k < all.len()
        invariant
            all@ == all_skills(),
            k <= all@.len(),
            count == count_present(all@.take(k as int), tags@),
            count <= k,
        decreases all@.len() - k,
    {
        assert(all@.take(k + 1).drop_last() =~= all@.take(k as int));
        if contains_tag(tags, all[k]) {
            count = count + 1;
        }
        k = k + 1;
    }
    assert(all@.take(all@.len() as int) =~= all@);
    count
}

} // verus!
