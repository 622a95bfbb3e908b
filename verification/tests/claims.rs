use hello_plot_max::ClaimSet;

#[test]
fn a_new_claim_set_holds_nothing() {
    let claims = ClaimSet::new();
    assert!(!claims.contains("a.plot"));
    assert!(!claims.contains(""));
}

#[test]
fn a_free_name_is_granted_once() {
    let mut claims = ClaimSet::new();
    assert!(claims.claim("a.plot"));
    assert!(claims.contains("a.plot"));
    assert!(!claims.claim("a.plot"));
    assert!(claims.contains("a.plot"));
}

#[test]
fn claims_on_different_names_do_not_meet() {
    let mut claims = ClaimSet::new();
    assert!(claims.claim("a.plot"));
    assert!(claims.claim("b.plot"));
    assert!(claims.contains("a.plot"));
    assert!(claims.contains("b.plot"));
    assert!(!claims.contains("c.plot"));
}

#[test]
fn release_frees_the_name_and_no_other() {
    let mut claims = ClaimSet::new();
    claims.claim("a.plot");
    claims.claim("b.plot");
    claims.release("a.plot");
    assert!(!claims.contains("a.plot"));
    assert!(claims.contains("b.plot"));
    assert!(claims.claim("a.plot"));
}

#[test]
fn release_of_a_free_name_changes_nothing() {
    let mut claims = ClaimSet::new();
    claims.claim("a.plot");
    claims.release("z.plot");
    assert!(claims.contains("a.plot"));
    assert!(!claims.contains("z.plot"));
}

#[test]
fn a_refused_claim_leaves_one_release_enough() {
    let mut claims = ClaimSet::new();
    assert!(claims.claim("/mnt/d1"));
    assert!(!claims.claim("/mnt/d1"));
    claims.release("/mnt/d1");
    assert!(!claims.contains("/mnt/d1"));
}
