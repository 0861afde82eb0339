use spam_graph::AnalysisError;
use spam_graph::ColumnVal;
use spam_graph::Graph;
use spam_graph::Threshold;
use spam_graph::Vocab;
use spam_graph::create_graph;
use spam_graph::find_best_spammer;
use spam_graph::find_num_disconnected_graphs;
use spam_graph::find_similarities;
use spam_graph::find_spam;
use spam_graph::map_users_to_words;
use spam_graph::table_from_cells;

fn fruit_vocab() -> (Vec<String>, Vocab) {
    let users: Vec<String> = vec![format!("Sara"), format!("John"), format!("Teah")];
    let mut map = Vocab::new();
    map.insert(format!("Sara"), vec![format!("apple"), format!("banana")]);
    map.insert(format!("John"), vec![format!("apple"), format!("banana")]);
    map.insert(format!("Teah"), vec![format!("apple"), format!("cabbage")]);
    (users, map)
}

fn edge_total(g: &Graph) -> usize {
    g.adj.iter().map(|row| row.len()).sum()
}

#[test]
fn similarity_is_symmetric() {
    let (_users, map) = fruit_vocab();
    let ab = find_similarities(format!("Sara"), format!("Teah"), &map).unwrap();
    let ba = find_similarities(format!("Teah"), format!("Sara"), &map).unwrap();
    assert_eq!(ab.shared, ba.shared);
    assert_eq!(ab.total, ba.total);
    assert_eq!(ab.shared, 1);
    assert_eq!(ab.total, 3);
}

#[test]
fn similarity_range_endpoints() {
    let (_users, map) = fruit_vocab();
    // Identical, non-empty vocabularies: score exactly 1.
    let same = find_similarities(format!("Sara"), format!("John"), &map).unwrap();
    assert_eq!(same.shared, same.total);
    assert!(same.total > 0);
    // Partial overlap: score strictly between 0 and 1.
    let part = find_similarities(format!("Sara"), format!("Teah"), &map).unwrap();
    assert!(part.shared <= part.total);
    assert!(part.shared > 0 && part.shared < part.total);
    // Disjoint vocabularies: score exactly 0.
    let mut map2 = Vocab::new();
    map2.insert(format!("A"), vec![format!("x")]);
    map2.insert(format!("B"), vec![format!("y")]);
    let none = find_similarities(format!("A"), format!("B"), &map2).unwrap();
    assert_eq!(none.shared, 0);
    assert_eq!(none.total, 2);
}

#[test]
fn similarity_exact_fraction() {
    // 7 words each, 3 shared: score is exactly 3 / 11.
    let mut map = Vocab::new();
    let a: Vec<String> =
        vec!["s1", "s2", "s3", "a1", "a2", "a3", "a4"].into_iter().map(String::from).collect();
    let b: Vec<String> =
        vec!["s1", "s2", "s3", "b1", "b2", "b3", "b4"].into_iter().map(String::from).collect();
    map.insert(format!("MrA"), a);
    map.insert(format!("MsB"), b);
    let res = find_similarities(format!("MrA"), format!("MsB"), &map).unwrap();
    assert_eq!(res.shared, 3);
    assert_eq!(res.total, 11);
}

#[test]
fn similarity_missing_user_is_not_found() {
    let (_users, map) = fruit_vocab();
    let res = find_similarities(format!("Sara"), format!("Nobody"), &map);
    assert_eq!(res, Err(AnalysisError::NotFound));
}

#[test]
fn threshold_monotonicity_on_edge_counts() {
    let (users, map) = fruit_vocab();
    let thresholds = [
        Threshold { num: 0, den: 1 },
        Threshold { num: 1, den: 5 },
        Threshold { num: 1, den: 2 },
        Threshold { num: 9, den: 10 },
        Threshold { num: 1, den: 1 },
    ];
    let mut last = usize::MAX;
    for t in thresholds {
        let g = create_graph(&users, &map, t);
        let count = edge_total(&g);
        assert!(count <= last);
        last = count;
    }
}

#[test]
fn build_graph_is_idempotent() {
    let (users, map) = fruit_vocab();
    let t = Threshold { num: 7, den: 10 };
    let g1 = create_graph(&users, &map, t);
    let g2 = create_graph(&users, &map, t);
    assert_eq!(g1.names, g2.names);
    assert_eq!(g1.adj, g2.adj);
}

#[test]
fn scenario_full_threshold() {
    // Threshold 1.0: Sara and John are mutual neighbors, Teah has none.
    let (users, map) = fruit_vocab();
    let g = create_graph(&users, &map, Threshold { num: 1, den: 1 });
    assert_eq!(g.names, users);
    assert_eq!(g.adj[0], vec!["John".to_string()]);
    assert_eq!(g.adj[1], vec!["Sara".to_string()]);
    assert_eq!(g.adj[2], Vec::<String>::new());
    assert_eq!(find_num_disconnected_graphs(&g), 2);
}

#[test]
fn scenario_zero_threshold_connects_everything() {
    let (users, map) = fruit_vocab();
    let g = create_graph(&users, &map, Threshold { num: 0, den: 1 });
    assert_eq!(find_num_disconnected_graphs(&g), 1);
}

#[test]
fn scenario_disjoint_vocabularies_isolate_everyone() {
    let users: Vec<String> = vec![format!("A"), format!("B"), format!("C"), format!("D")];
    let mut map = Vocab::new();
    map.insert(format!("A"), vec![format!("ant")]);
    map.insert(format!("B"), vec![format!("bee")]);
    map.insert(format!("C"), vec![format!("cat")]);
    map.insert(format!("D"), vec![format!("dog")]);
    let g = create_graph(&users, &map, Threshold { num: 1, den: 2 });
    let n = users.len() as u32;
    let count = find_num_disconnected_graphs(&g);
    assert_eq!(count, n);
    assert!(1 <= count && count <= n);
}

#[test]
fn component_count_on_empty_graph_is_zero() {
    let g = Graph { names: Vec::new(), adj: Vec::new() };
    assert_eq!(find_num_disconnected_graphs(&g), 0);
}

#[test]
fn spam_count_never_exceeds_user_count() {
    let cells: Vec<ColumnVal> = vec![
        ColumnVal::One("Sara".to_string()),
        ColumnVal::One("Pay me".to_string()),
        ColumnVal::One("Video1".to_string()),
        ColumnVal::Two(true),
        ColumnVal::One("Sara".to_string()),
        ColumnVal::One("Pay me now".to_string()),
        ColumnVal::One("Video1".to_string()),
        ColumnVal::Two(true),
        ColumnVal::One("Teah".to_string()),
        ColumnVal::One("Nice".to_string()),
        ColumnVal::One("Video1".to_string()),
        ColumnVal::Two(false),
    ];
    let table = table_from_cells(3, 4, cells);
    let (my_map, users) = map_users_to_words(&table).unwrap();
    let (count, spammers) = find_spam(&table, &users).unwrap();
    assert_eq!(count as usize, spammers.len());
    assert!(count as usize <= users.len());
    assert_eq!(spammers, vec!["Sara".to_string()]);
    assert!(my_map.get_words(&"Teah".to_string()).is_some());
}

#[test]
fn best_spammers_keep_all_ties() {
    // Alma and Bera tie at degree 3; nobody else reaches it.
    let names: Vec<String> = ["Alma", "Bera", "Cleo", "Dina", "Elio"]
        .into_iter()
        .map(String::from)
        .collect();
    let adj: Vec<Vec<String>> = vec![
        vec!["Cleo".to_string(), "Dina".to_string(), "Elio".to_string()],
        vec!["Cleo".to_string(), "Dina".to_string(), "Elio".to_string()],
        vec!["Alma".to_string(), "Bera".to_string()],
        vec!["Alma".to_string(), "Bera".to_string()],
        vec!["Alma".to_string(), "Bera".to_string()],
    ];
    let g = Graph { names, adj };
    let best = find_best_spammer(&g);
    assert_eq!(best, vec!["Alma".to_string(), "Bera".to_string()]);
}

#[test]
fn best_spammers_empty_graph_is_empty() {
    let g = Graph { names: Vec::new(), adj: Vec::new() };
    assert_eq!(find_best_spammer(&g), Vec::<String>::new());
}

#[test]
fn extraction_rejects_non_text_identity() {
    let cells: Vec<ColumnVal> = vec![
        ColumnVal::Two(true),
        ColumnVal::One("Pay me".to_string()),
        ColumnVal::One("Video1".to_string()),
        ColumnVal::Two(true),
    ];
    let table = table_from_cells(1, 4, cells);
    assert!(matches!(map_users_to_words(&table), Err(AnalysisError::TypeMismatch)));
}

#[test]
fn find_spam_rejects_non_boolean_label() {
    let cells: Vec<ColumnVal> = vec![
        ColumnVal::One("Sara".to_string()),
        ColumnVal::One("Pay me".to_string()),
        ColumnVal::One("Video1".to_string()),
        ColumnVal::One("yes".to_string()),
    ];
    let table = table_from_cells(1, 4, cells);
    let users = vec!["Sara".to_string()];
    assert_eq!(find_spam(&table, &users), Err(AnalysisError::TypeMismatch));
    assert!(matches!(
        spam_graph::filter_spam_rows(&table),
        Err(AnalysisError::TypeMismatch)
    ));
}

#[test]
fn normalization_lowercases_and_strips() {
    // "APPLE!!!" and "apple" must normalize to the same word, so the two
    // users' vocabularies are identical and their score is exactly 1.
    let cells: Vec<ColumnVal> = vec![
        ColumnVal::One("X".to_string()),
        ColumnVal::One("APPLE!!! ,,, ".to_string()),
        ColumnVal::One("Video1".to_string()),
        ColumnVal::Two(false),
        ColumnVal::One("Y".to_string()),
        ColumnVal::One("apple".to_string()),
        ColumnVal::One("Video1".to_string()),
        ColumnVal::Two(false),
    ];
    let table = table_from_cells(2, 4, cells);
    let (map, _users) = map_users_to_words(&table).unwrap();
    let res = find_similarities(format!("X"), format!("Y"), &map).unwrap();
    assert_eq!(res.shared, 1);
    assert_eq!(res.total, 1);
}

#[test]
fn words_split_and_deduplicate() {
    let toks = spam_graph::words::tokenize("hello  world hello");
    assert_eq!(toks.len(), 3);
    let cells: Vec<ColumnVal> = vec![
        ColumnVal::One("X".to_string()),
        ColumnVal::One("Hello, WORLD hello".to_string()),
        ColumnVal::One("Video1".to_string()),
        ColumnVal::Two(false),
    ];
    let table = table_from_cells(1, 4, cells);
    let (map, _users) = map_users_to_words(&table).unwrap();
    let mut words = map.get_words(&"X".to_string()).unwrap().clone();
    words.sort();
    assert_eq!(words, vec!["hello".to_string(), "world".to_string()]);
}
