use spam_graph::ColumnVal;
use spam_graph::Threshold;
use spam_graph::Vocab;
use spam_graph::create_graph;
use spam_graph::find_spam;
use spam_graph::map_users_to_words;
use spam_graph::table_from_cells;
use spam_graph::Table;

fn eight_row_table() -> Table {
    let giant_vec: Vec<ColumnVal> = vec![
        ColumnVal::One("Sara".to_string()),
        ColumnVal::One("Pay me".to_string()),
        ColumnVal::One("Video1".to_string()),
        ColumnVal::Two(true),
        ColumnVal::One("John".to_string()),
        ColumnVal::One("Pay me".to_string()),
        ColumnVal::One("Video1".to_string()),
        ColumnVal::Two(true),
        ColumnVal::One("Teah".to_string()),
        ColumnVal::One("I love this video".to_string()),
        ColumnVal::One("Video1".to_string()),
        ColumnVal::Two(false),
        ColumnVal::One("Jei".to_string()),
        ColumnVal::One("Awesome".to_string()),
        ColumnVal::One("Video1".to_string()),
        ColumnVal::Two(false),
        ColumnVal::One("Maya".to_string()),
        ColumnVal::One("Subscribe to me".to_string()),
        ColumnVal::One("Video1".to_string()),
        ColumnVal::Two(true),
        ColumnVal::One("Sara".to_string()),
        ColumnVal::One("This is cool".to_string()),
        ColumnVal::One("Video2".to_string()),
        ColumnVal::Two(false),
        ColumnVal::One("Veri".to_string()),
        ColumnVal::One("Wow!".to_string()),
        ColumnVal::One("Video2".to_string()),
        ColumnVal::Two(false),
        ColumnVal::One("Veri".to_string()),
        ColumnVal::One("Pay me".to_string()),
        ColumnVal::One("Video3".to_string()),
        ColumnVal::Two(true),
    ];
    table_from_cells(8, 4, giant_vec)
}

#[test]
fn test_graph_creation() {
    let users_shortened: Vec<String> =
        vec![format!("Sara"), format!("John"), format!("Teah")];
    let mut my_map_shortened = Vocab::new();

    my_map_shortened.insert(format!("Sara"), vec![format!("apple"), format!("banana")]);
    my_map_shortened.insert(format!("John"), vec![format!("apple"), format!("banana")]);
    my_map_shortened.insert(format!("Teah"), vec![format!("apple"), format!("cabbage")]);

    let my_graph_shortened =
        create_graph(&users_shortened, &my_map_shortened, Threshold { num: 1, den: 1 });

    let mut tester1 = false;
    let mut tester2 = false;
    let mut tester3 = false;
    let mut final_tester = false;

    if my_graph_shortened.names.contains(&format!("Sara"))
        && my_graph_shortened.names.contains(&format!("John"))
        && my_graph_shortened.names.contains(&format!("Teah"))
    {
        tester1 = true;
    }
    let sara_pos = my_graph_shortened.names.iter().position(|s| s == "Sara").unwrap();
    let john_pos = my_graph_shortened.names.iter().position(|s| s == "John").unwrap();
    let teah_pos = my_graph_shortened.names.iter().position(|s| s == "Teah").unwrap();
    if my_graph_shortened.adj[sara_pos].contains(&format!("John"))
        && my_graph_shortened.adj[john_pos].contains(&format!("Sara"))
    {
        tester2 = true;
    }
    if my_graph_shortened.adj[teah_pos] == Vec::<String>::new() {
        tester3 = true;
    }

    if tester1 && tester2 && tester3 {
        final_tester = true;
    }
    assert_eq!(true, final_tester);
}

#[test]
fn test_spam_finding() {
    let my_arr = eight_row_table();
    let (_my_map, users) = map_users_to_words(&my_arr).unwrap();
    let (num_spam_users_mini, spammers_mini) = find_spam(&my_arr, &users).unwrap();

    let mut tester1 = false;
    let mut tester2 = false;
    let mut final_tester = false;
    if num_spam_users_mini == 4 {
        tester1 = true;
    }
    if spammers_mini
        == vec![
            "Sara".to_string(),
            "John".to_string(),
            "Maya".to_string(),
            "Veri".to_string(),
        ]
    {
        tester2 = true;
    }

    if tester1 && tester2 {
        final_tester = true;
    }
    assert_eq!(true, final_tester);
}

#[test]
fn extraction_collects_users_and_words() {
    let my_arr = eight_row_table();
    let (my_map, users) = map_users_to_words(&my_arr).unwrap();
    assert_eq!(
        users,
        vec![
            "Sara".to_string(),
            "John".to_string(),
            "Teah".to_string(),
            "Jei".to_string(),
            "Maya".to_string(),
            "Veri".to_string(),
        ]
    );
    let sara_words = my_map.get_words(&"Sara".to_string()).unwrap().clone();
    let mut sorted = sara_words.clone();
    sorted.sort();
    assert_eq!(
        sorted,
        vec![
            "cool".to_string(),
            "is".to_string(),
            "me".to_string(),
            "pay".to_string(),
            "this".to_string(),
        ]
    );
    assert!(my_map.get_words(&"Nobody".to_string()).is_none());
}

#[test]
fn count_spam_comments_counts_true_labels() {
    let my_arr = eight_row_table();
    assert_eq!(spam_graph::count_spam_comments(&my_arr), 4);
}

#[test]
fn filter_spam_rows_keeps_spam_rows_in_order() {
    let my_arr = eight_row_table();
    let spam_only = spam_graph::filter_spam_rows(&my_arr).unwrap();
    assert_eq!(spam_graph::table::table_nrows(&spam_only), 4);
    assert_eq!(spam_graph::table::table_cols(&spam_only), 4);
    let users: Vec<String> = (0..4)
        .map(|i| match spam_graph::table::table_cell(&spam_only, i, 0) {
            ColumnVal::One(s) => s,
            ColumnVal::Two(_) => panic!("label in identity column"),
        })
        .collect();
    assert_eq!(
        users,
        vec![
            "Sara".to_string(),
            "John".to_string(),
            "Maya".to_string(),
            "Veri".to_string(),
        ]
    );
}

#[test]
fn record_to_row_reads_the_columns_of_interest() {
    let fields: Vec<String> = vec![
        "id0".to_string(),
        "Sara".to_string(),
        "2013-01-01".to_string(),
        "Pay me".to_string(),
        "Video1".to_string(),
        "1".to_string(),
    ];
    let row = spam_graph::record_to_row(&fields).unwrap();
    assert_eq!(row.len(), 4);
    assert_eq!(row[0], ColumnVal::One("Sara".to_string()));
    assert_eq!(row[1], ColumnVal::One("Pay me".to_string()));
    assert_eq!(row[2], ColumnVal::One("Video1".to_string()));
    assert_eq!(row[3], ColumnVal::Two(true));

    let mut ham = fields.clone();
    ham[5] = "0".to_string();
    assert_eq!(spam_graph::record_to_row(&ham).unwrap()[3], ColumnVal::Two(false));

    let mut bad_label = fields.clone();
    bad_label[5] = "spam".to_string();
    assert!(spam_graph::record_to_row(&bad_label).is_none());

    let short: Vec<String> = fields[..5].to_vec();
    assert!(spam_graph::record_to_row(&short).is_none());
}
