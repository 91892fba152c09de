use encage_build::dag::Dag;

fn text_of(dag: &Dag<String, String>) -> String {
    let mut text = String::new();
    dag.write_makefile(&mut text);
    text
}

#[test]
fn makefile_of_nothing_is_empty() {
    let dag: Dag<String, String> = Dag::new();
    assert_eq!(text_of(&dag), "");
}

#[test]
fn makefile_of_a_chain_of_three() {
    let mut dag: Dag<String, String> = Dag::new();
    let a = dag.add_value("a.out".to_string());
    let b = dag.add_value("b.out".to_string());
    let c = dag.add_value("c.out".to_string());
    let first = dag.add_node("make a".to_string());
    let second = dag.add_node("make b".to_string());
    let third = dag.add_node("make c".to_string());
    dag.add_output(first, a);
    dag.add_input(second, a);
    dag.add_output(second, b);
    dag.add_input(third, b);
    dag.add_output(third, c);
    assert_eq!(
        text_of(&dag),
        "a.out : \n\tmake a\nb.out : a.out \n\tmake b\nc.out : b.out \n\tmake c\n"
    );
}

#[test]
fn makefile_lists_values_in_the_order_of_declaration() {
    let mut dag: Dag<String, String> = Dag::new();
    let x = dag.add_value("x".to_string());
    let y = dag.add_value("y".to_string());
    let z = dag.add_value("z".to_string());
    let node = dag.add_node("link".to_string());
    dag.add_input(node, z);
    dag.add_input(node, x);
    dag.add_output(node, y);
    dag.add_output(node, x);
    assert_eq!(text_of(&dag), "y x : z x \n\tlink\n");
}

#[test]
fn makefile_is_appended_to_what_is_there() {
    let mut dag: Dag<String, String> = Dag::new();
    let out = dag.add_value("out".to_string());
    let node = dag.add_node("true".to_string());
    dag.add_output(node, out);
    let mut text = String::from("# rules\n");
    dag.write_makefile(&mut text);
    assert_eq!(text, "# rules\nout : \n\ttrue\n");
}

#[test]
fn handles_of_one_kind_are_distinct() {
    let mut dag: Dag<String, String> = Dag::new();
    let a = dag.add_value("a".to_string());
    let b = dag.add_value("b".to_string());
    let n = dag.add_node("n".to_string());
    let m = dag.add_node("m".to_string());
    assert_ne!(a, b);
    assert_ne!(n, m);
}
