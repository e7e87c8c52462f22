use molang::eval::{parse_canonical_path, Namespace, QualifiedName, RuntimeContext, StructFields, Value};

fn bits(x: f64) -> u64 {
    x.to_bits()
}

fn path(parts: &[&str]) -> Vec<String> {
    parts.iter().map(|part| part.to_string()).collect()
}

#[test]
fn canonical_round_trip() {
    let mut ctx = RuntimeContext::default();
    ctx.set_number_canonical("temp.x", bits(2.5));
    assert_eq!(ctx.get_number_canonical("temp.x"), Some(bits(2.5)));
    assert!(matches!(ctx.get_value_canonical("temp.x"), Some(Value::Number(_))));
    assert_eq!(ctx.get_number_canonical("temp.y"), None);
    assert_eq!(ctx.get_number_canonical("nowhere.x"), None);
}

#[test]
fn qualified_names_are_canonical() {
    let name = QualifiedName::from_parts(&path(&["t", "X", "Y"]));
    assert_eq!(name.namespace(), &Namespace::Temp);
    assert_eq!(name.key(), "x.y");
    assert_eq!(name.canonical(), "temp.x.y");
    assert_eq!(name.segments(), path(&["x", "y"]));
    assert_eq!(name.to_path(), path(&["temp", "x", "y"]));
    assert!(name.same_as(&QualifiedName::from_parts(&path(&["TEMP", "x", "y"]))));
    let plain = QualifiedName::from_parts(&path(&["Speed"]));
    assert_eq!(plain.namespace(), &Namespace::Variable);
    assert_eq!(plain.key(), "speed");
    let bare = QualifiedName::from_parts(&path(&["query"]));
    assert_eq!(bare.namespace(), &Namespace::Query);
    assert_eq!(bare.key(), "_");
    let empty = QualifiedName::from_parts(&[]);
    assert_eq!(empty.namespace(), &Namespace::Variable);
    assert_eq!(empty.key(), "");
    assert_eq!(empty.segments(), Vec::<String>::new());
    let made = QualifiedName::new(Namespace::Context, "a.b".to_string());
    assert_eq!(made.canonical(), "context.a.b");
    assert_eq!(made.clone().key(), "a.b");
}

#[test]
fn namespace_prefixes_and_aliases() {
    for (text, namespace) in [
        ("temp", Namespace::Temp),
        ("T", Namespace::Temp),
        ("variable", Namespace::Variable),
        ("Var", Namespace::Variable),
        ("v", Namespace::Variable),
        ("context", Namespace::Context),
        ("c", Namespace::Context),
        ("QUERY", Namespace::Query),
        ("q", Namespace::Query),
    ] {
        assert_eq!(Namespace::from_prefix(text), Some(namespace));
    }
    assert_eq!(Namespace::from_prefix("math"), None);
    assert_eq!(Namespace::from_prefix(""), None);
    assert_eq!(Namespace::Temp.prefix(), "temp");
    assert_eq!(Namespace::Variable.prefix(), "variable");
    assert_eq!(Namespace::Context.prefix(), "context");
    assert_eq!(Namespace::Query.prefix(), "query");
    assert_eq!(Namespace::split_parts(&path(&["q", "A", "b"])), (Namespace::Query, path(&["A", "b"])));
    assert_eq!(Namespace::split_parts(&path(&["A", "b"])), (Namespace::Variable, path(&["A", "b"])));
    assert_eq!(Namespace::split_parts(&[]), (Namespace::Variable, path(&[""])));
    assert_eq!(parse_canonical_path("t.a.B"), Some((Namespace::Temp, path(&["a", "B"]))));
    assert_eq!(parse_canonical_path("temp"), Some((Namespace::Temp, path(&[]))));
    assert_eq!(parse_canonical_path("a.b"), None);
}

#[test]
fn aliases_assign_alike() {
    let mut first = RuntimeContext::default();
    first.set_number_canonical("temp.X", bits(1.0));
    let mut second = RuntimeContext::default();
    second.set_number_canonical("t.x", bits(1.0));
    for ctx in [&first, &second] {
        assert_eq!(ctx.len(), 1);
        assert_eq!(ctx.get_number_canonical("temp.x"), Some(bits(1.0)));
        assert_eq!(ctx.get_number_canonical("t.x"), Some(bits(1.0)));
        assert_eq!(ctx.variable_at(0).map(|(name, _)| name), Some("temp.x".to_string()));
    }
    assert_eq!(first.get_value_for_path(&path(&["T", "X"])).map(|v| v.as_number()), Some(bits(1.0)));
}

#[test]
fn nested_assignment_invariant() {
    let mut ctx = RuntimeContext::default();
    ctx.set_number_canonical("temp.a.b.c", bits(7.0));
    assert_eq!(ctx.len(), 3);
    assert_eq!(ctx.get_number_canonical("temp.a.b.c"), Some(bits(7.0)));
    let inner = ctx.get_value_canonical("temp.a.b").expect("the parent");
    let fields = inner.as_struct().expect("a struct");
    assert_eq!(fields.len(), 1);
    assert_eq!(fields.get("c").map(|v| v.as_number()), Some(bits(7.0)));
    ctx.set_number_canonical("temp.a.b.d", bits(8.0));
    ctx.set_number_canonical("temp.a.b.c", bits(9.0));
    let inner = ctx.get_value_canonical("temp.a.b").expect("the parent");
    let fields = inner.as_struct().expect("a struct");
    assert_eq!(fields.len(), 2);
    assert_eq!(fields.get("c").map(|v| v.as_number()), Some(bits(9.0)));
    assert_eq!(fields.get("d").map(|v| v.as_number()), Some(bits(8.0)));
    let outer = ctx.get_value_canonical("temp.a").expect("the grandparent");
    let outer_fields = outer.as_struct().expect("a struct");
    let through = outer_fields.get("b").and_then(|v| v.as_struct()).expect("a struct");
    assert_eq!(through.get("d").map(|v| v.as_number()), Some(bits(8.0)));
    assert_eq!(ctx.get_number_canonical("temp.a.b.missing"), None);
}

#[test]
fn lookup_walks_back_to_the_longest_prefix() {
    let mut fields = StructFields::new();
    assert!(fields.is_empty());
    assert!(fields.insert("x".to_string(), Value::number(bits(1.0))).is_none());
    assert!(fields.insert("y".to_string(), Value::array(vec![Value::Null, Value::string("s")])).is_none());
    let old = fields.insert("x".to_string(), Value::number(bits(3.0)));
    assert!(matches!(old, Some(Value::Number(b)) if b == bits(1.0)));
    assert_eq!(fields.len(), 2);
    let mut ctx = RuntimeContext::default();
    ctx.insert(Namespace::Temp, "Pos", Value::Struct(fields));
    assert_eq!(ctx.len(), 1);
    assert_eq!(ctx.get_number_canonical("temp.pos.x"), Some(bits(3.0)));
    assert_eq!(ctx.get_number_canonical("temp.pos.y"), Some(bits(2.0)));
    assert_eq!(ctx.get_number_canonical("temp.pos.y.length"), Some(bits(2.0)));
    assert_eq!(ctx.get_number_canonical("temp.pos.y.size"), None);
    assert_eq!(ctx.get_number_canonical("temp.pos.z"), None);
    assert_eq!(ctx.get_number_canonical("temp.pos.x.deeper"), None);
    assert_eq!(ctx.get_number_canonical("temp.pos"), Some(0));
    assert_eq!(ctx.get_number_canonical("temp.Pos.x"), Some(bits(3.0)));
    let name = QualifiedName::from_parts(&path(&["temp", "POS", "x"]));
    assert_eq!(ctx.get_number(&name), Some(bits(3.0)));
    assert_eq!(ctx.get_or_default_number(&name), bits(3.0));
    let missing = QualifiedName::from_parts(&path(&["temp", "none"]));
    assert_eq!(ctx.get_number(&missing), None);
    assert_eq!(ctx.get_or_default_number(&missing), 0);
}

#[test]
fn query_is_written_by_the_host_alone() {
    let mut ctx = RuntimeContext::default().with_query("X", bits(1.0));
    ctx.set_number_canonical("query.x", bits(5.0));
    ctx.set_value_canonical("q.y", Value::string("no"));
    ctx.set_value_for_path(&path(&["query", "x"]), Value::Null);
    ctx.set_number_for_path(&path(&["Q", "z"]), bits(2.0));
    ctx.array_push_number_canonical("query.list", bits(1.0));
    ctx.copy_value_canonical("query.copy", "query.x");
    assert_eq!(ctx.len(), 1);
    assert_eq!(ctx.get_number_canonical("query.x"), Some(bits(1.0)));
    ctx.set_query_value("x", bits(6.0));
    ctx.set_query_string("Name", "steve");
    ctx.set_query("list", Value::array(vec![Value::number(bits(4.0))]));
    assert_eq!(ctx.get_number_canonical("query.x"), Some(bits(6.0)));
    assert!(ctx.path_equals_string("query.name", "steve"));
    assert_eq!(ctx.array_length_canonical("query.list"), 1);
    let ctx = ctx.with_query_string("a", "b").with_query_value("c", Value::Null).with_number(
        Namespace::Temp,
        "N",
        bits(3.0),
    );
    assert_eq!(ctx.len(), 6);
    assert_eq!(ctx.get_number_canonical("temp.n"), Some(bits(3.0)));
    assert!(matches!(ctx.get_value_canonical("query.c"), Some(Value::Null)));
}

#[test]
fn assignments_without_a_key_change_nothing() {
    let mut ctx = RuntimeContext::default();
    ctx.set_number_canonical("temp", bits(1.0));
    ctx.set_number_canonical("unknown.x", bits(1.0));
    ctx.set_value_for_path(&path(&["temp"]), Value::Null);
    assert_eq!(ctx.len(), 0);
    ctx.set_value_for_path(&path(&["Speed", "Max"]), Value::number(bits(2.0)));
    assert_eq!(ctx.get_number_canonical("variable.speed.max"), Some(bits(2.0)));
    assert_eq!(ctx.get_number_canonical("v.speed.max"), Some(bits(2.0)));
    ctx.set_value_with_name(QualifiedName::new(Namespace::Context, "k".to_string()), Value::string("v"));
    assert!(ctx.path_equals_string("c.k", "v"));
}

#[test]
fn clear_removes_the_key_and_what_lies_below() {
    let mut ctx = RuntimeContext::default();
    ctx.set_number_canonical("temp.a.b", bits(1.0));
    ctx.set_number_canonical("temp.ab", bits(2.0));
    ctx.set_number_canonical("variable.a.b", bits(3.0));
    ctx.set_number_canonical("temp.a.c.d", bits(4.0));
    assert_eq!(ctx.len(), 7);
    ctx.clear_value_canonical("temp.A");
    assert_eq!(ctx.len(), 3);
    assert_eq!(ctx.get_number_canonical("temp.a.b"), None);
    assert_eq!(ctx.get_number_canonical("temp.a"), None);
    assert_eq!(ctx.get_number_canonical("temp.ab"), Some(bits(2.0)));
    assert_eq!(ctx.get_number_canonical("variable.a.b"), Some(bits(3.0)));
    ctx.clear_value_canonical("temp");
    ctx.clear_value_canonical("elsewhere.a");
    assert_eq!(ctx.len(), 3);
    let copy = ctx.clone();
    ctx.clear_value_canonical("variable.a");
    assert_eq!(ctx.len(), 1);
    assert_eq!(copy.len(), 3);
}

#[test]
fn copy_takes_the_value_or_clears() {
    let mut ctx = RuntimeContext::default();
    ctx.set_value_canonical("temp.src", Value::string("hello"));
    ctx.set_number_canonical("temp.dst.inner", bits(1.0));
    ctx.copy_value_canonical("temp.dst", "temp.src");
    assert!(ctx.path_equals_string("temp.dst", "hello"));
    assert_eq!(ctx.get_number_canonical("temp.dst.inner"), Some(bits(1.0)));
    ctx.copy_value_canonical("temp.dst", "temp.nothing");
    assert!(ctx.get_value_canonical("temp.dst").is_none());
    assert!(ctx.get_value_canonical("temp.dst.inner").is_none());
}

#[test]
fn arrays_push_wrap_and_count() {
    let mut ctx = RuntimeContext::default();
    assert_eq!(ctx.array_length_canonical("temp.list"), 0);
    assert_eq!(ctx.array_get_number_canonical("temp.list", bits(0.0)), 0);
    ctx.set_number_canonical("temp.list", bits(9.0));
    ctx.array_push_number_canonical("temp.list", bits(10.0));
    ctx.array_push_string_canonical("temp.list", "text");
    ctx.array_push_value_canonical("temp.list", Value::array(vec![Value::Null, Value::Null]));
    assert_eq!(ctx.array_length_canonical("temp.list"), 3);
    assert_eq!(ctx.get_number_canonical("temp.list"), Some(bits(3.0)));
    assert_eq!(ctx.array_get_number_canonical("temp.list", bits(0.0)), bits(10.0));
    assert_eq!(ctx.array_get_number_canonical("temp.list", bits(1.0)), 0);
    assert_eq!(ctx.array_get_number_canonical("temp.list", bits(2.0)), bits(2.0));
    assert_eq!(ctx.array_get_number_canonical("temp.list", bits(3.0)), bits(10.0));
    assert_eq!(ctx.array_get_number_canonical("temp.list", bits(6.9)), bits(10.0));
    assert_eq!(ctx.array_get_number_canonical("temp.list", bits(-1.0)), bits(10.0));
    assert_eq!(ctx.array_get_number_canonical("temp.list", bits(f64::NAN)), bits(10.0));
    assert_eq!(ctx.array_get_number_canonical("temp.list", bits(2.999)), bits(2.0));
    ctx.array_copy_element_canonical("temp.list", 4, "temp.item");
    assert!(ctx.path_equals_string("temp.item", "text"));
    ctx.array_copy_element_canonical("temp.list", -5, "temp.item");
    assert_eq!(ctx.get_number_canonical("temp.item"), Some(bits(10.0)));
    ctx.array_copy_element_canonical("temp.none", 0, "temp.item");
    assert!(ctx.get_value_canonical("temp.item").is_none());
    let list = ctx.get_value_canonical("temp.list").expect("the list");
    assert_eq!(list.as_array().map(|items| items.len()), Some(3));
    assert!(list.as_struct().is_none());
    assert!(Value::Null.as_array().is_none());
}

#[test]
fn values_coerce_to_numbers_and_truth() {
    assert_eq!(Value::number(bits(2.5)).as_number(), bits(2.5));
    assert_eq!(Value::string("12").as_number(), 0);
    assert_eq!(Value::Null.as_number(), 0);
    assert_eq!(Value::Struct(StructFields::new()).as_number(), 0);
    assert_eq!(Value::array(vec![]).as_number(), 0);
    assert_eq!(Value::array(vec![Value::Null; 5]).as_number(), bits(5.0));
    assert!(Value::number(bits(0.1)).truthy());
    assert!(Value::number(bits(f64::NAN)).truthy());
    assert!(!Value::number(bits(0.0)).truthy());
    assert!(!Value::number(bits(-0.0)).truthy());
    assert!(Value::string("x").truthy());
    assert!(!Value::string("").truthy());
    assert!(Value::array(vec![Value::Null]).truthy());
    assert!(!Value::array(vec![]).truthy());
    assert!(!Value::Struct(StructFields::new()).truthy());
    let mut fields = StructFields::new();
    fields.insert("k".to_string(), Value::Null);
    let copy = fields.clone();
    assert!(Value::Struct(fields).truthy());
    assert_eq!(copy.len(), 1);
    assert!(matches!(copy.get("k"), Some(Value::Null)));
    assert!(copy.get("K").is_none());
    assert!(!Value::Null.truthy());
}

#[test]
fn paths_compare_by_kind() {
    let mut ctx = RuntimeContext::default();
    ctx.set_value_canonical("temp.a", Value::string("same"));
    ctx.set_value_canonical("temp.b", Value::string("same"));
    ctx.set_value_canonical("temp.c", Value::string("other"));
    ctx.set_number_canonical("temp.n", bits(0.0));
    ctx.set_number_canonical("temp.m", bits(-0.0));
    ctx.set_number_canonical("temp.nan", bits(f64::NAN));
    ctx.set_value_canonical("temp.list", Value::array(vec![]));
    assert!(ctx.paths_equal("temp.a", "temp.b"));
    assert!(!ctx.paths_equal("temp.a", "temp.c"));
    assert!(!ctx.paths_equal("temp.a", "temp.n"));
    assert!(ctx.paths_equal("temp.n", "temp.m"));
    assert!(!ctx.paths_equal("temp.nan", "temp.nan"));
    assert!(ctx.paths_equal("temp.none", "temp.nothing"));
    assert!(!ctx.paths_equal("temp.none", "temp.n"));
    assert!(!ctx.paths_equal("temp.list", "temp.list"));
    assert!(ctx.path_equals_string("temp.a", "same"));
    assert!(!ctx.path_equals_string("temp.a", "Same"));
    assert!(!ctx.path_equals_string("temp.n", ""));
    assert!(!ctx.path_equals_string("temp.none", ""));
}

#[test]
fn variables_are_listed_once_each() {
    let mut ctx = RuntimeContext::new();
    ctx.set_number_canonical("temp.x", bits(1.0));
    ctx.set_number_canonical("temp.x", bits(2.0));
    ctx.set_value_canonical("context.y", Value::string("s"));
    assert_eq!(ctx.len(), 2);
    let mut names: Vec<String> = (0..ctx.len()).map(|i| ctx.variable_at(i).expect("an entry").0).collect();
    names.sort();
    assert_eq!(names, vec!["context.y".to_string(), "temp.x".to_string()]);
    assert!(ctx.variable_at(2).is_none());
}

#[test]
fn keys_fold_ascii_letters_alone() {
    for code in 0..=0x10ffffu32 {
        if let Some(c) = char::from_u32(code) {
            if c == '.' {
                continue;
            }
            let name = QualifiedName::from_parts(&path(&["temp", &c.to_string()]));
            assert_eq!(name.key(), c.to_ascii_lowercase().to_string(), "U+{:04X}", code);
        }
    }
    let name = QualifiedName::from_parts(&path(&["CONTEXT", "ÀB.c", "Ünder_Score9"]));
    assert_eq!(name.canonical(), "context.Àb.c.Ünder_score9");
    assert_eq!(name.segments(), path(&["Àb", "c", "Ünder_score9"]));
}

#[test]
fn variables_can_be_listed() {
    let mut ctx = RuntimeContext::default().with_query("Speed", bits(2.0));
    ctx.set_value_canonical("temp.a.b", Value::string("s"));
    let mut listed: Vec<(String, String)> =
        ctx.list_variables().into_iter().map(|(name, value)| (name, format!("{:?}", value))).collect();
    listed.sort();
    assert_eq!(listed.len(), 3);
    assert_eq!(listed[0].0, "query.speed");
    assert_eq!(listed[1].0, "temp.a");
    assert_eq!(listed[2], ("temp.a.b".to_string(), "String(\"s\")".to_string()));
    assert!(RuntimeContext::new().list_variables().is_empty());
}

#[test]
fn canonical_reads_fold_letter_case() {
    let mut ctx = RuntimeContext::default();
    ctx.set_number_canonical("temp.x", bits(1.0));
    assert_eq!(ctx.get_number_canonical("temp.X"), Some(bits(1.0)));
    assert_eq!(ctx.get_number_canonical("TEMP.x"), Some(bits(1.0)));
    assert_eq!(ctx.get_number_canonical("T.X"), Some(bits(1.0)));
    assert!(matches!(ctx.get_value_canonical("Temp.X"), Some(Value::Number(_))));

    ctx.set_value_canonical("variable.Name.First", Value::string("ada"));
    assert!(ctx.path_equals_string("V.NAME.FIRST", "ada"));
    assert!(!ctx.path_equals_string("V.NAME.FIRST", "Ada"));
    ctx.set_value_canonical("context.other", Value::string("ada"));
    assert!(ctx.paths_equal("Variable.name.FIRST", "C.Other"));
    assert!(matches!(ctx.get_value_canonical("variable.NAME"), Some(Value::Struct(_))));

    ctx.array_push_number_canonical("temp.List", bits(4.0));
    ctx.array_push_number_canonical("TEMP.list", bits(5.0));
    assert_eq!(ctx.array_length_canonical("temp.LIST"), 2);
    assert_eq!(ctx.array_get_number_canonical("Temp.List", bits(1.0)), bits(5.0));
    assert_eq!(ctx.get_number_canonical("temp.list.LENGTH"), Some(bits(2.0)));
    ctx.array_copy_element_canonical("TEMP.LIST", 0, "temp.Picked");
    assert_eq!(ctx.get_number_canonical("temp.picked"), Some(bits(4.0)));
    ctx.copy_value_canonical("temp.Copy", "TEMP.PICKED");
    assert_eq!(ctx.get_number_canonical("temp.COPY"), Some(bits(4.0)));
}

#[test]
fn an_empty_key_is_never_assigned() {
    let mut ctx = RuntimeContext::default();
    ctx.set_number_canonical("temp.", bits(1.0));
    ctx.set_value_canonical("variable.", Value::string("s"));
    ctx.array_push_number_canonical("context.", bits(1.0));
    ctx.set_value_for_path(&path(&["temp", ""]), Value::number(bits(1.0)));
    ctx.set_number_for_path(&path(&[""]), bits(1.0));
    assert_eq!(ctx.len(), 0);
    assert_eq!(ctx.get_number_canonical("temp."), None);

    ctx.set_number_canonical("temp.x", bits(3.0));
    ctx.copy_value_canonical("temp.", "temp.x");
    assert_eq!(ctx.len(), 1);

    ctx.set_number_canonical("temp..", bits(2.0));
    assert_eq!(ctx.get_number_canonical("temp.."), Some(bits(2.0)));
}

#[test]
fn clearing_and_copying_outside_query_keep_query() {
    let mut ctx = RuntimeContext::default().with_query("speed", bits(5.0)).with_query_string("name", "q");
    ctx.set_number_canonical("temp.speed", bits(1.0));
    ctx.array_push_number_canonical("temp.list", bits(9.0));
    ctx.clear_value_canonical("temp.speed");
    ctx.copy_value_canonical("temp.copy", "temp.missing");
    ctx.copy_value_canonical("variable.speed", "query.speed");
    ctx.array_copy_element_canonical("temp.none", 0, "context.speed");
    ctx.copy_value_canonical("query.speed", "temp.list");
    ctx.array_copy_element_canonical("temp.list", 0, "query.name");
    assert_eq!(ctx.get_number_canonical("query.speed"), Some(bits(5.0)));
    assert!(ctx.path_equals_string("query.name", "q"));
    assert_eq!(ctx.get_number_canonical("variable.speed"), Some(bits(5.0)));
    assert_eq!(ctx.get_number_canonical("temp.speed"), None);
}
