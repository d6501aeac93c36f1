use rozum::router::{
    difficulty_labels, snap_to_label, Hit, Label, LabelMatch, ModelRouter, RagWorker, Relevance,
};

fn labels() -> Vec<Label> {
    vec![
        Label::new("code", "writing or editing code"),
        Label::new("math", "calculation or proofs"),
        Label::new("chitchat", "casual conversation"),
    ]
}

#[test]
fn snap_exact_match() {
    let m = snap_to_label("code", &labels()).unwrap();
    assert_eq!(m, LabelMatch { index: 0, exact: true });
}

#[test]
fn snap_cased_and_punctuated() {
    let m = snap_to_label("  Code.  ", &labels()).unwrap();
    assert_eq!(m, LabelMatch { index: 0, exact: true });
}

#[test]
fn snap_label_prefix_and_surrounding_text() {
    let m = snap_to_label("Label: math", &labels()).unwrap();
    assert_eq!(m, LabelMatch { index: 1, exact: false });
    let m2 = snap_to_label("I think this is chitchat, honestly", &labels()).unwrap();
    assert_eq!(m2, LabelMatch { index: 2, exact: false });
}

#[test]
fn snap_no_substring_false_positive() {
    assert!(snap_to_label("please decode this", &labels()).is_none());
}

#[test]
fn snap_ambiguous_is_none() {
    assert!(snap_to_label("is this code or math?", &labels()).is_none());
}

#[test]
fn snap_off_set_is_none() {
    assert!(snap_to_label("banana", &labels()).is_none());
    assert!(snap_to_label("", &labels()).is_none());
}

#[test]
fn empty_label_set_rejected() {
    assert!(ModelRouter::new(vec![]).is_err());
}

#[test]
fn fallback_when_model_reply_off_set() {
    let router = ModelRouter::new(labels()).unwrap_or_else(|_| panic!("labels"));
    let c = router.classify("hello!");
    assert_eq!(c.label, "code");
    assert!(c.fallback_used);
    assert_eq!(c.confidence_percent, 0);
}

fn judged(w: &RagWorker, replies: &[&str]) -> Vec<Relevance> {
    replies.iter().map(|r| w.judge(r)).collect()
}

#[test]
fn rerank_drops_irrelevant_and_orders_by_grade() {
    let w = RagWorker::new();
    let out = w.rerank(&judged(&w, &["related", "irrelevant", "relevant"]));
    assert_eq!(out, vec![2, 0]);
}

#[test]
fn rerank_stable_within_grade_keeps_retriever_order() {
    let w = RagWorker::new();
    let out = w.rerank(&judged(&w, &["relevant", "relevant", "relevant"]));
    assert_eq!(out, vec![0, 1, 2]);
}

#[test]
fn rerank_off_set_reply_keeps_hit_conservatively() {
    let w = RagWorker::new();
    let out = w.rerank(&judged(&w, &["i am not a label"]));
    assert_eq!(out, vec![0]);
}

fn hit(id: &str, text: &str) -> Hit {
    Hit { id: id.to_string(), score: 1.5f32.to_bits(), text: text.to_string() }
}

#[test]
fn summarize_empty_hits_is_empty() {
    let w = RagWorker::new();
    assert!(w.summarize(&vec![], "anything").is_empty());
}

#[test]
fn summarize_falls_back_to_top_snippet_when_model_blank() {
    let w = RagWorker::new();
    let hits = vec![hit("a", "the grounded snippet"), hit("b", "other")];
    assert_eq!(w.summarize(&hits, "   "), "the grounded snippet");
}

#[test]
fn summarize_returns_model_text() {
    let w = RagWorker::new();
    assert_eq!(
        w.summarize(&vec![hit("a", "snippet")], "a concise grounded answer"),
        "a concise grounded answer"
    );
}

#[test]
fn answers_hold_the_passages_that_stay() {
    let w = RagWorker::new();
    let hits = vec![hit("a", "some"), hit("b", "none"), hit("c", "best")];
    let judged = vec![Relevance::Related, Relevance::Irrelevant, Relevance::Relevant];
    let r = w.rerank_and_summarize(&hits, &judged, " ");
    let kept: Vec<_> = r.hits.iter().map(|h| (h.id.as_str(), f32::from_bits(h.score), h.text.as_str())).collect();
    assert_eq!(kept, [("c", 1.5, "best"), ("a", 1.5, "some")]);
    assert_eq!(r.summary, "best");
    assert_eq!(w.rerank_and_summarize(&hits, &judged, "so").summary, "so");
    let none = w.rerank_and_summarize(&hits, &vec![Relevance::Irrelevant, Relevance::Irrelevant, Relevance::Irrelevant], "so");
    assert!(none.hits.is_empty() && none.summary.is_empty());
}

#[test]
fn letters_of_other_scripts_are_letters() {
    let l = vec![Label::new("ÉTÉ", "summer"), Label::new("hiver", "winter")];
    assert_eq!(snap_to_label("été", &l), Some(LabelMatch { index: 0, exact: true }));
    assert_eq!(snap_to_label("l'été!", &l).map(|m| m.index), Some(0));
    assert_eq!(snap_to_label("étéx", &l), None);
}

#[test]
fn prompts_name_every_label() {
    let router = ModelRouter::new(labels()).unwrap_or_else(|_| panic!("labels"));
    let p = router.prompt("solve x^2 = 4");
    for l in ["code", "math", "chitchat"] {
        assert!(p.contains(l));
    }
    assert!(p.contains("solve x^2 = 4"));
    assert_eq!(router.labels().len(), 3);
    let w = RagWorker::new().with_summary_max_tokens(7);
    assert_eq!(w.summary_max_tokens, 7);
    assert!(w.relevance_prompt("q", "the passage").contains("the passage"));
    assert!(w.summary_prompt("q", &vec![hit("a", "text of a")]).contains("text of a"));
}

#[test]
fn confidence_and_difficulty() {
    let router = ModelRouter::new(difficulty_labels()).unwrap_or_else(|_| panic!("labels"));
    let exact = router.classify("hard");
    assert!(!exact.fallback_used);
    assert_eq!(exact.label, "hard");
    let loose = router.classify("I would say hard");
    assert!(loose.confidence_percent < exact.confidence_percent);
    let (n, d) = router.difficulty("hard");
    assert_eq!(n, d);
    let (n, _) = router.difficulty("trivial");
    assert_eq!(n, 0);
    assert_eq!(Relevance::from_index(0).grade(), 2);
    assert_eq!(Relevance::from_index(2).grade(), 0);
    assert_eq!(Relevance::labels().len(), 3);
}

#[test]
fn a_long_snippet_is_cut_at_a_character() {
    let w = RagWorker::new();
    let long = "é".repeat(2000);
    let s = w.summarize(&vec![hit("a", &long)], "");
    assert!(s.len() < long.len());
    assert!(long.starts_with(s.trim_end_matches('…')));
}
