use icore::evaluator::SemanticEvaluator;
use icore::latent_graph::LatentGraph;
use icore::object::{Affect, ObjectCluster};
use icore::reflect::reflect;
use icore::similarity::sim_le_exec;

fn cluster(name: &str, embedding: Vec<i32>) -> ObjectCluster {
    ObjectCluster::new(name.to_string(), embedding, vec![])
}

#[test]
fn calculate_affect_pain_sharp_is_unpleasant() {
    let tags = vec!["pain".to_string(), "sharp".to_string()];
    let score = SemanticEvaluator::calculate_affect(&tags);
    assert_eq!(score.value, -17);
    assert!(matches!(score.class, Affect::Unpleasant));
}

#[test]
fn calculate_affect_beautiful_safe_is_pleasant() {
    let tags = vec!["beautiful".to_string(), "safe".to_string()];
    let score = SemanticEvaluator::calculate_affect(&tags);
    assert_eq!(score.value, 15);
    assert!(matches!(score.class, Affect::Pleasant));
}

#[test]
fn calculate_affect_empty_is_unknown() {
    let tags: Vec<String> = vec![];
    let score = SemanticEvaluator::calculate_affect(&tags);
    assert_eq!(score.value, 0);
    assert!(matches!(score.class, Affect::Unknown));
}

#[test]
fn calculate_affect_ignores_unknown_tags() {
    let tags = vec!["pain".to_string(), "velvet".to_string()];
    let score = SemanticEvaluator::calculate_affect(&tags);
    assert_eq!(score.value, -10);
    assert!(matches!(score.class, Affect::Unpleasant));
}

#[test]
fn assign_tags_strips_and_lowercases() {
    let tags = SemanticEvaluator::assign_tags("Pain, (Sharp)! edges");
    assert_eq!(tags, vec!["pain".to_string(), "sharp".to_string(), "edges".to_string()]);
}

#[test]
fn assign_tags_discards_empty_tokens() {
    let tags = SemanticEvaluator::assign_tags("  --- !!  beautiful  ...  ");
    assert_eq!(tags, vec!["beautiful".to_string()]);
}

#[test]
fn assign_tags_on_empty_text_is_empty() {
    let tags = SemanticEvaluator::assign_tags("");
    assert!(tags.is_empty());
}

#[test]
fn stability_promotion_needs_four_tags_and_strong_affect() {
    let mut c = cluster("knife", vec![1, 2, 3]);
    c.add_tag("pain");
    c.add_tag("sharp");
    c.add_tag("metal");
    c.update_affect(-9);
    assert!(!c.known);
    c.add_tag("tool");
    assert!(c.known);
}

#[test]
fn stability_promotion_needs_distinct_tags() {
    let mut c = cluster("x", vec![1, 0]);
    c.update_affect(12);
    c.add_tag("a");
    c.add_tag("a");
    c.add_tag("b");
    c.add_tag("c");
    assert!(!c.known);
    c.add_tag("d");
    assert!(c.known);
}

#[test]
fn known_never_reverts() {
    let mut c = cluster("x", vec![1, 0]);
    c.add_tag("a");
    c.add_tag("b");
    c.add_tag("c");
    c.add_tag("d");
    c.update_affect(8);
    assert!(c.known);
    c.update_affect(-8);
    assert_eq!(c.affect.value, 0);
    assert!(c.known);
    SemanticEvaluator::reclassify_if_stable(&mut c);
    assert!(c.known);
}

#[test]
fn reclassify_if_stable_promotes() {
    let mut c = ObjectCluster::new(
        "y".to_string(),
        vec![2, 2],
        vec!["a".to_string(), "b".to_string(), "c".to_string(), "d".to_string()],
    );
    SemanticEvaluator::reclassify_if_stable(&mut c);
    assert!(!c.known);
    c.update_affect(-8);
    SemanticEvaluator::reclassify_if_stable(&mut c);
    assert!(c.known);
}

#[test]
fn add_cluster_replaces_by_name() {
    let mut g = LatentGraph::new();
    g.add_cluster("a".to_string(), cluster("a", vec![1, 0]));
    let mut replacement = cluster("a", vec![0, 1]);
    replacement.add_tag("fresh");
    g.add_cluster("a".to_string(), replacement);
    assert_eq!(g.clusters.len(), 1);
    assert_eq!(g.clusters[0].embedding, vec![0, 1]);
}

#[test]
fn add_relation_appends_without_dedup() {
    let mut g = LatentGraph::new();
    g.add_relation("a", "likes", "b");
    g.add_relation("a", "likes", "b");
    assert_eq!(g.relations.len(), 2);
}

#[test]
fn find_nearest_picks_most_similar() {
    let mut g = LatentGraph::new();
    g.add_cluster("east".to_string(), cluster("east", vec![10, 0]));
    g.add_cluster("north".to_string(), cluster("north", vec![0, 10]));
    g.add_cluster("northeast".to_string(), cluster("northeast", vec![7, 7]));
    let q = vec![9, 1];
    let (name, _) = g.find_nearest(&q).unwrap();
    assert_eq!(name, "east");
}

#[test]
fn find_nearest_on_empty_graph_is_none() {
    let g = LatentGraph::new();
    assert!(g.find_nearest(&vec![1, 2]).is_none());
}

#[test]
fn find_nearest_tie_breaks_toward_earliest() {
    let mut g = LatentGraph::new();
    g.add_cluster("first".to_string(), cluster("first", vec![2, 0]));
    g.add_cluster("second".to_string(), cluster("second", vec![4, 0]));
    let (name, _) = g.find_nearest(&vec![1, 0]).unwrap();
    assert_eq!(name, "first");
}

#[test]
fn reflect_excludes_reference_sorts_and_truncates() {
    let mut g = LatentGraph::new();
    g.add_cluster("ref".to_string(), cluster("ref", vec![10, 0]));
    for (name, emb) in [
        ("a", vec![9, 1]),
        ("b", vec![1, 9]),
        ("c", vec![10, 1]),
        ("d", vec![-5, 5]),
        ("e", vec![8, 3]),
        ("f", vec![0, 10]),
    ] {
        g.add_cluster(name.to_string(), cluster(name, emb));
    }
    let out = reflect(&g, "ref");
    assert_eq!(out.len(), 5);
    for n in &out {
        assert_ne!(n.id, "ref");
    }
    for w in out.windows(2) {
        assert!(sim_le_exec(&w[1].score, &w[0].score));
    }
    assert_eq!(out[0].id, "c");
}

#[test]
fn reflect_unknown_id_is_empty() {
    let mut g = LatentGraph::new();
    g.add_cluster("a".to_string(), cluster("a", vec![1, 0]));
    assert!(reflect(&g, "ghost").is_empty());
}

#[test]
fn reflect_with_few_clusters_returns_them_all() {
    let mut g = LatentGraph::new();
    g.add_cluster("ref".to_string(), cluster("ref", vec![1, 0]));
    g.add_cluster("other".to_string(), cluster("other", vec![0, 1]));
    let out = reflect(&g, "ref");
    assert_eq!(out.len(), 1);
    assert_eq!(out[0].id, "other");
}
