use hhbc_emit::label;
use hhbc_emit::label::Label;
use hhbc_emit::local;
use hhbc_emit::local::{Local, LocalId};

#[test]
fn label_gen_hands_out_consecutive_labels() {
    let mut g = label::Gen::new();
    assert_eq!(g.next_regular(), Label(0));
    assert_eq!(g.next_regular(), Label(1));
    g.reset();
    assert_eq!(g.next_regular(), Label(0));
}

#[test]
fn local_gen_caches_dedicated_locals() {
    let mut g = local::Gen::new();
    let l = g.get_label();
    assert_eq!(l, Local::Unnamed(LocalId { idx: 0 }));
    assert_eq!(g.get_label(), l);
    let r = g.get_retval();
    assert_eq!(r, Local::Unnamed(LocalId { idx: 1 }));
    assert_eq!(g.get_retval(), r);
    assert_eq!(g.get_unnamed(), Local::Unnamed(LocalId { idx: 2 }));
}
