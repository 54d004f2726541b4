use stars::order::order_by_key;
use stars::search::{find, position_named, starting_star, StarName};

fn catalog() -> Vec<StarName> {
    let s = |n: &str, d: &str| StarName { name: n.to_string(), designation: d.to_string() };
    vec![
        s("Sirius", "9Alp CMa"),
        s("Canopus", "Alp Car"),
        s("Rigil Kentaurus", "Alp1Cen"),
        s("Sol", ""),
        s("Sun", ""),
        s("Polaris", "1Alp UMi"),
        s("Pollux", "78Bet Gem"),
    ]
}

#[test]
fn find_prefers_exact_then_prefix_then_substring_then_designation() {
    let c = catalog();
    assert_eq!(find(&c, "  SIRIUS "), Some(0));
    assert_eq!(find(&c, "pol"), Some(5));
    assert_eq!(find(&c, "llux"), Some(6));
    assert_eq!(find(&c, "kent"), Some(2));
    assert_eq!(find(&c, "bet gem"), Some(6));
    assert_eq!(find(&c, "sol"), Some(3));
    assert_eq!(find(&c, "xyz"), None);
    assert_eq!(find(&c, "   "), None);
}

#[test]
fn starting_star_defaults_to_the_sun() {
    let c = catalog();
    assert_eq!(starting_star(&c, None), Some(4));
    assert_eq!(starting_star(&c, Some("canopus")), Some(1));
    assert_eq!(starting_star(&c, Some("nothing")), None);
    let mut short = catalog();
    short.truncate(3);
    assert_eq!(starting_star(&short, None), Some(0));
    assert_eq!(position_named(&c, "Polaris"), Some(5));
    assert_eq!(position_named(&c, "polaris"), None);
}

#[test]
fn order_by_key_then_name_then_catalog() {
    let keys = vec![(2, 0), (1, 5), (1, 5), (0, 9), (1, 4)];
    let names: Vec<String> = vec!["a", "zeta", "beta", "x", "q"].into_iter().map(String::from).collect();
    assert_eq!(order_by_key(&keys, &names), vec![3, 4, 2, 1, 0]);
    let same = vec![(0, 0), (0, 0), (0, 0)];
    let dup: Vec<String> = vec!["b", "a", "b"].into_iter().map(String::from).collect();
    assert_eq!(order_by_key(&same, &dup), vec![1, 0, 2]);
    assert_eq!(order_by_key(&vec![], &vec![]), Vec::<usize>::new());
}
