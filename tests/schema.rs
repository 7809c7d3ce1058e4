use petgraph::graph::NodeIndex;
use steam_language::schema::{
    array_extract_size, build_schema, extract_members_exhaustive, is_array, match_type,
    dropped_count, parse_stmt, parse_stmts, split_words_to_vec,
};

fn gen_stmt_known_type() -> &'static str {
    "ulong steamId"
}

fn gen_members_code() -> &'static str {
    "\r\n\tulong giftId;\r\n\tbyte giftType;\r\n\tuint accountId;\r\n"
}

fn gen_members_vec() -> Vec<String> {
    vec!["ulong giftId".into(), "byte<10> giftType".into(), "uint accountId".into()]
}

fn label(g: &steam_language::graph::SchemaGraph, i: usize) -> String {
    g.graph[NodeIndex::new(i)].clone()
}

fn children(g: &steam_language::graph::SchemaGraph, n: usize) -> Vec<usize> {
    g.graph
        .raw_edges()
        .iter()
        .filter(|e| e.source().index() == n)
        .map(|e| e.target().index())
        .collect()
}

#[test]
fn test_split_tokens() {
    let stmt = gen_stmt_known_type();
    let wat = split_words_to_vec(stmt);
    assert_eq!(vec!["ulong", "steamId"], wat);
}

#[test]
fn test_extract_members_exhaustive() {
    let code = gen_members_code();
    let members = extract_members_exhaustive(code);
    assert_eq!(vec!["ulong giftId", "byte giftType", "uint accountId"], members)
}

#[test]
fn test_parse_known_types() {
    let non_parsed_vec = gen_members_vec();
    let parsed_vec = parse_stmts(non_parsed_vec);
    let test_vec = [["gift_id", "u64"], ["gift_type", "[u8; 10]"], ["account_id", "u32"]];
    assert_eq!(parsed_vec.len(), 3);
    for vec in test_vec.iter().zip(parsed_vec.iter()) {
        let x: Vec<&str> = vec![vec.1.name.as_str(), vec.1.wire_type.as_str()];
        assert_eq!(vec.0.to_vec(), x)
    }
}

#[test]
fn test_array() {
    let array = "byte<10>";
    let not_array = "byte";

    assert_eq!(true, is_array(array));
    assert_eq!(false, is_array(not_array));
    assert_eq!(10, array_extract_size(array).parse::<u32>().unwrap());
}

#[test]
fn split_keeps_every_piece() {
    assert_eq!(vec!["steamidmarshal", "ulong", "steamId"], split_words_to_vec("steamidmarshal ulong steamId"));
    assert_eq!(vec!["ulong", "", "a"], split_words_to_vec("ulong  a"));
    assert_eq!(vec!["single"], split_words_to_vec("single"));
}

#[test]
fn snake_case_names() {
    assert_eq!(parse_stmt("ulong giftId").unwrap().name, "gift_id");
    assert_eq!(parse_stmt("ulong AccountId").unwrap().name, "account_id");
}

#[test]
fn snake_case_is_idempotent_on_examples() {
    for raw in ["giftId", "AccountId", "steamIdTarget", "gift_id"] {
        let once = parse_stmt(&format!("ulong {}", raw)).unwrap().name;
        let twice = parse_stmt(&format!("ulong {}", once)).unwrap().name;
        assert_eq!(once, twice);
    }
}

#[test]
fn type_table() {
    assert_eq!(match_type("ulong"), "u64");
    assert_eq!(match_type("long"), "i64");
    assert_eq!(match_type("uint"), "u32");
    assert_eq!(match_type("int"), "i32");
    assert_eq!(match_type("ushort"), "u16");
    assert_eq!(match_type("short"), "i16");
    assert_eq!(match_type("byte"), "u8");
    assert_eq!(match_type("steamidmarshal"), "steamidmarshal");
    assert_eq!(match_type(""), "");
}

#[test]
fn array_field_type() {
    let f = parse_stmt("byte<10> giftType").unwrap();
    assert_eq!(f.wire_type, "[u8; 10]");
    assert_eq!(array_extract_size("byte<12>"), "12");
    assert_eq!(array_extract_size("byte"), "");
}

#[test]
fn declaration_without_space_is_dropped() {
    assert!(parse_stmt("ulong").is_none());
    let fields = parse_stmts(vec!["ulong".into(), "uint accountId".into()]);
    assert_eq!(fields.len(), 1);
    assert_eq!(fields[0].name, "account_id");
    assert_eq!(fields[0].wire_type, "u32");
    let decls: Vec<String> = vec!["ulong".into(), "uint accountId".into(), "".into()];
    assert_eq!(dropped_count(&decls), 2);
    assert_eq!(dropped_count(&gen_members_vec()), 0);
}

#[test]
fn end_to_end_members_and_fields() {
    let members = extract_members_exhaustive("\r\n\tulong giftId;\r\n\tbyte giftType;\r\n\tuint accountId;\r\n");
    assert_eq!(vec!["ulong giftId", "byte giftType", "uint accountId"], members);
    let fields: Vec<(String, String)> =
        parse_stmts(members).into_iter().map(|f| (f.name, f.wire_type)).collect();
    let expected: Vec<(String, String)> = vec![
        ("gift_id".into(), "u64".into()),
        ("gift_type".into(), "u8".into()),
        ("account_id".into(), "u32".into()),
    ];
    assert_eq!(fields, expected);
}

#[test]
fn unindented_member_is_not_extracted() {
    assert!(extract_members_exhaustive("ulong giftId;\r\n\tuint accountId;").is_empty());
    assert_eq!(extract_members_exhaustive("\tulong a;uint b;\n\tint c;"), vec!["ulong a"]);
    assert!(extract_members_exhaustive("").is_empty());
    assert!(extract_members_exhaustive("\r\n\tulong a").is_empty());
}

#[test]
fn graph_of_two_classes() {
    let doc = "// header\r\nclass MsgGift<EMsg::Gift>\r\n{\r\n\tulong giftId;\r\n\tbyte<10> giftType;\r\n};\r\n\r\nclass MsgAccount<EMsg::Account>\r\n{\r\n\tuint accountId;\r\n};\r\n";
    let g = build_schema(doc);
    assert_eq!(g.entry, 0);
    assert_eq!(label(&g, 0), "entry");
    assert_eq!(g.graph.node_count(), 1 + 1 + 4 + 1 + 2);
    assert_eq!(g.graph.edge_count(), 8);
    let roots = children(&g, 0);
    assert_eq!(roots.len(), 2);
    assert_eq!(label(&g, roots[0]), "MsgGift");
    assert_eq!(label(&g, roots[1]), "MsgAccount");
    let first: Vec<String> = children(&g, roots[0]).into_iter().map(|n| label(&g, n)).collect();
    assert_eq!(first, vec!["gift_id", "u64", "gift_type", "[u8; 10]"]);
    let second: Vec<String> = children(&g, roots[1]).into_iter().map(|n| label(&g, n)).collect();
    assert_eq!(second, vec!["account_id", "u32"]);
}

#[test]
fn class_without_parameters_is_named_up_to_brace() {
    let g = build_schema("class Plain{\r\n\tint a;\r\n};");
    let roots = children(&g, 0);
    assert_eq!(label(&g, roots[0]), "Plain");
    let fields: Vec<String> = children(&g, roots[0]).into_iter().map(|n| label(&g, n)).collect();
    assert_eq!(fields, vec!["a", "i32"]);
}

#[test]
fn unterminated_class_ends_the_document() {
    let g = build_schema("class A<X>\r\n{\r\n\tint a;\r\n};\r\nclass B<Y>\r\n{\r\n\tint b;\r\n");
    assert_eq!(children(&g, 0).len(), 1);
}

#[test]
fn document_without_class_gives_root_only() {
    let g = build_schema("enum EResult\r\n{\r\n\tOK = 1;\r\n};\r\n");
    assert_eq!(g.graph.node_count(), 1);
    assert_eq!(g.graph.edge_count(), 0);
    assert_eq!(label(&g, 0), "entry");
    let empty = build_schema("");
    assert_eq!(empty.graph.node_count(), 1);
    assert_eq!(empty.graph.edge_count(), 0);
}
