use niribg::daemon::anim::{Anim, Ease, ONE};

const MS: u64 = 1_000_000;
const NOW: u64 = 5_000 * MS;

fn aged(duration_ms: u64, elapsed_ms: u64, ease: Ease) -> Anim {
    Anim::new(NOW - elapsed_ms * MS, duration_ms * MS, ease)
}

fn unit(x: u32) -> f64 {
    f64::from(x) / f64::from(ONE)
}

#[test]
fn fresh_animation_is_at_zero() {
    let a = Anim::new(NOW, 250 * MS, Ease::Out);
    assert!(unit(a.progress(NOW)) < 0.05);
    assert!(unit(a.eased(NOW)) < 0.05);
    assert!(!a.done(NOW));
    assert_eq!(a.progress(NOW), 0);
    assert_eq!(a.eased(NOW), 0);
}

#[test]
fn past_the_end_is_one_and_done() {
    for ease in [Ease::Out, Ease::In] {
        let a = aged(250, 400, ease);
        assert_eq!(unit(a.progress(NOW)), 1.0);
        assert_eq!(unit(a.eased(NOW)), 1.0);
        assert!(a.done(NOW));
    }
}

#[test]
fn ease_out_leads_linear_in_the_first_half() {
    let a = aged(200, 100, Ease::Out);
    let p = unit(a.progress(NOW));
    assert!((0.45..=0.55).contains(&p), "progress {p}");
    assert!(unit(a.eased(NOW)) > p, "ease-out {} not ahead of linear {p}", unit(a.eased(NOW)));
    assert!(unit(a.eased(NOW)) < 1.0);
    assert_eq!(a.eased(NOW), ONE / 8 * 7);
}

#[test]
fn ease_in_trails_linear_in_the_first_half() {
    let a = aged(200, 100, Ease::In);
    let p = unit(a.progress(NOW));
    assert!((0.45..=0.55).contains(&p), "progress {p}");
    assert!(unit(a.eased(NOW)) < p, "ease-in {} not behind linear {p}", unit(a.eased(NOW)));
    assert!(unit(a.eased(NOW)) > 0.0);
    assert_eq!(a.eased(NOW), ONE / 8);
}

#[test]
fn ease_in_is_the_mirror_of_ease_out() {
    for ms in [0, 45, 120, 210, 285, 300] {
        let inn = unit(aged(300, ms, Ease::In).eased(NOW));
        let out = unit(aged(300, 300 - ms, Ease::Out).eased(NOW));
        assert!((inn - (1.0 - out)).abs() < 1e-5, "at {ms}ms: in {inn}, out {out}");
    }
}

#[test]
fn zero_duration_is_immediately_done() {
    for ease in [Ease::Out, Ease::In] {
        let a = Anim::new(NOW, 0, ease);
        assert_eq!(unit(a.progress(NOW)), 1.0);
        assert!(a.done(NOW));
        assert_eq!(unit(a.eased(NOW)), 1.0);
    }
}

#[test]
fn eased_is_monotonic() {
    for ease in [Ease::Out, Ease::In] {
        let mut prev = 0.0;
        for ms in [0, 30, 75, 150, 225, 290, 300, 500] {
            let e = unit(aged(300, ms, ease).eased(NOW));
            assert!(e >= prev - 1e-6, "{ease:?} dropped at {ms}ms: {e} < {prev}");
            assert!((0.0..=1.0).contains(&e));
            prev = e;
        }
    }
}

#[test]
fn before_its_start_an_animation_is_at_zero() {
    let a = Anim::new(NOW, 250 * MS, Ease::Out);
    assert_eq!(a.progress(NOW - MS), 0);
    assert!(!a.done(NOW - MS));
}
