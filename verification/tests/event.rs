use arborui::event::KeyModifiers;
use arborui::invalidation::Invalidation;

#[test]
fn key_modifiers_compose_without_backend_types() {
    let modifiers = KeyModifiers::control() | KeyModifiers::shift();

    assert!(modifiers.contains(KeyModifiers::control()));
    assert!(modifiers.contains(KeyModifiers::shift()));
    assert!(!modifiers.contains(KeyModifiers::alt()));
}

#[test]
fn requests_only_escalate() {
    let mut invalidation = Invalidation::Paint;
    invalidation.request(Invalidation::Recompose);
    invalidation.request(Invalidation::Layout);

    assert_eq!(invalidation, Invalidation::Recompose);
}

#[test]
fn unchanged_requests_leave_any_invalidation_alone() {
    for level in [
        Invalidation::Unchanged,
        Invalidation::Paint,
        Invalidation::Layout,
        Invalidation::Recompose,
    ] {
        let mut invalidation = level;
        invalidation.request(Invalidation::Unchanged);
        assert_eq!(invalidation, level);
    }
}

#[test]
fn empty_modifiers_are_contained_in_every_set() {
    assert!(KeyModifiers::none().is_empty());
    assert!(!KeyModifiers::meta().is_empty());
    let mut modifiers = KeyModifiers::hyper();
    modifiers.insert(KeyModifiers::super_key());
    assert!(modifiers.contains(KeyModifiers::none()));
    assert!(modifiers.contains(KeyModifiers::super_key()));
    assert!(modifiers.contains(KeyModifiers::hyper()));
    assert!(!modifiers.contains(KeyModifiers::shift()));
}

#[test]
fn request_sequences_end_at_their_maximum_in_any_order() {
    let requests = [Invalidation::Paint, Invalidation::Layout, Invalidation::Paint];
    let mut forward = Invalidation::Unchanged;
    for request in requests {
        forward.request(request);
    }
    let mut backward = Invalidation::Unchanged;
    for request in requests.iter().rev() {
        backward.request(*request);
    }
    assert_eq!(forward, Invalidation::Layout);
    assert_eq!(backward, Invalidation::Layout);
    let mut recompose = Invalidation::Recompose;
    for request in requests {
        recompose.request(request);
    }
    assert_eq!(recompose, Invalidation::Recompose);
}
