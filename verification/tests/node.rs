use cql_parser::node::CqlNode;

#[test]
fn create_sc() {
    let n = CqlNode::mk_sc("ti", "=", Some(&"value"), None);
    assert_eq!(n.index, "ti");
    assert_eq!(n.relation, "=");
    assert!(n.term.is_some_and(|val| val == "value"));
    assert!(n.index_uri.is_none());
    assert!(n.relation_uri.is_none());
    assert!(n.modifiers.is_none());
    assert!(n.modifiers.is_none());
}

#[test]
fn create_sort() {
    let sc = CqlNode::St(CqlNode::mk_sc("ti", "=", None, None));
    let my_root = CqlNode::mk_root(Box::new(sc), Vec::new());
    match my_root {
        CqlNode::Root(n) => {
            assert!(n.sort.len() == 0);
        }
        _ => panic!("not a root"),
    }
}

#[test]
fn create_tree() {
    let my_sc1 = Box::new(CqlNode::St(CqlNode::mk_sc("ti", "=", Some(&"house"), None)));
    let my_sc2 = Box::new(CqlNode::St(CqlNode::mk_sc(
        "au",
        "=",
        Some(&"andersen"),
        None,
    )));
    let my_bool = CqlNode::mk_boolean("And", my_sc1, my_sc2, None);

    match my_bool {
        CqlNode::Boolean(n) => {
            assert_eq!("And", n.value);
            match *n.left {
                CqlNode::St(n) => {
                    assert_eq!("ti", n.index);
                    assert!(n.term.is_some_and(|val| val == "house"));
                }
                _ => panic!("left is no search clause"),
            }
            match *n.right {
                CqlNode::St(n) => {
                    assert_eq!("au", n.index);
                    assert!(n.term.is_some_and(|val| val == "andersen"));
                }
                _ => panic!("right is no search clause"),
            }
        }
        _ => panic!("not a boolean"),
    }
}
