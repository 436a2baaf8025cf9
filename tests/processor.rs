use pict_rs::processor::{
    blur_argument, build_chain, build_path, decimal_text, parse_op, plan_chain, push_component,
    thumbnail_size, Op, ProcessChain, Sigma, Step,
};

fn segs(v: &[&str]) -> Vec<String> {
    v.iter().map(|s| s.to_string()).collect()
}

fn no_sigmas(n: usize) -> Vec<Option<Sigma>> {
    (0..n).map(|_| None).collect()
}

#[test]
fn parses_identity_and_thumbnail() {
    assert!(matches!(parse_op("identity", &None, None), Some(Op::Identity)));
    assert!(matches!(parse_op("thumbnail256", &None, None), Some(Op::Thumbnail(256))));
    assert!(matches!(parse_op("thumbnail+7", &None, None), Some(Op::Thumbnail(7))));
    assert!(matches!(parse_op("thumbnailthumbnail9", &None, None), Some(Op::Thumbnail(9))));
}

#[test]
fn drops_bad_segments() {
    assert!(parse_op("thumbnail0", &None, None).is_none());
    assert!(parse_op("thumbnail", &None, None).is_none());
    assert!(parse_op("thumbnail-3", &None, None).is_none());
    assert!(parse_op("thumbnail99999999999999999999999", &None, None).is_none());
    assert!(parse_op("identityx", &None, None).is_none());
    assert!(parse_op("resize10", &None, None).is_none());
    assert!(parse_op("blur2", &None, None).is_none());
}

#[test]
fn blur_takes_its_radius() {
    let op = parse_op("blur1.5", &None, Some(Sigma::new("1.5".to_string(), true)));
    match op {
        Some(Op::Blur(s)) => {
            assert_eq!(s.text, "1.5");
            assert!(s.positive);
        }
        _ => panic!("expected a blur"),
    }
    assert_eq!(blur_argument("blur1.5"), Some(b"1.5".to_vec()));
    assert_eq!(blur_argument("blurblur-2"), Some(b"-2".to_vec()));
    assert_eq!(blur_argument("thumbnail5"), None);
}

#[test]
fn whitelist_filters_operators() {
    let wl = Some(vec!["thumbnail".to_string()]);
    assert!(parse_op("identity", &wl, None).is_none());
    assert!(matches!(parse_op("thumbnail10", &wl, None), Some(Op::Thumbnail(10))));
    assert!(parse_op("blur3", &wl, Some(Sigma::new("3".to_string(), true))).is_none());
}

#[test]
fn chain_keeps_order_and_drops_unknown() {
    let args = segs(&["thumbnail100", "junk", "identity", "thumbnail50"]);
    let chain = build_chain(&args, &None, &no_sigmas(4));
    assert_eq!(chain.ops.len(), 3);
    assert!(matches!(chain.ops[0], Op::Thumbnail(100)));
    assert!(matches!(chain.ops[1], Op::Identity));
    assert!(matches!(chain.ops[2], Op::Thumbnail(50)));
}

#[test]
fn decimal_rendering() {
    assert_eq!(decimal_text(0), "0");
    assert_eq!(decimal_text(256), "256");
    assert_eq!(decimal_text(u64::MAX), "18446744073709551615");
}

#[test]
fn path_components() {
    let mut p = String::from("/data/files");
    push_component(&mut p, "a.png");
    assert_eq!(p, "/data/files/a.png");
    let mut q = String::from("/data/files/");
    push_component(&mut q, "a.png");
    assert_eq!(q, "/data/files/a.png");
    let mut e = String::new();
    push_component(&mut e, "a.png");
    assert_eq!(e, "a.png");
}

#[test]
fn thumbnail_variant_path() {
    let chain = build_chain(&segs(&["thumbnail256"]), &None, &no_sigmas(1));
    assert_eq!(build_path("/data/files", &chain, "abc.jpg"), "/data/files/thumbnail/256/abc.jpg");
}

#[test]
fn identity_variant_is_the_original() {
    let chain = build_chain(&segs(&["identity"]), &None, &no_sigmas(1));
    assert_eq!(build_path("/data/files", &chain, "abc.png"), "/data/files/abc.png");
    let plan = plan_chain(&chain, 10, 10, false);
    assert!(!plan.changed);
    assert!(plan.steps.is_empty());
}

#[test]
fn blur_variant_path() {
    let args = segs(&["blur2.5", "thumbnail8"]);
    let sigmas = vec![Some(Sigma::new("2.5".to_string(), true)), None];
    let chain = build_chain(&args, &None, &sigmas);
    assert_eq!(build_path("/d", &chain, "f.png"), "/d/blur/2.5/thumbnail/8/f.png");
}

#[test]
fn thumbnail_of_landscape_jpeg() {
    assert_eq!(thumbnail_size(1024, 768, 256), (256, 192));
    let chain = ProcessChain { ops: vec![Op::Thumbnail(256)] };
    let plan = plan_chain(&chain, 1024, 768, false);
    assert!(plan.changed);
    assert_eq!(plan.steps.len(), 1);
    assert!(matches!(plan.steps[0], Step::Sample { width: 256, height: 192 }));
    assert_eq!((plan.width, plan.height), (256, 192));
    assert!(plan.width.max(plan.height) <= 256);
}

#[test]
fn thumbnail_of_portrait() {
    assert_eq!(thumbnail_size(300, 600, 100), (50, 100));
    assert_eq!(thumbnail_size(500, 500, 100), (100, 100));
}

#[test]
fn small_images_are_left_alone() {
    let chain = ProcessChain { ops: vec![Op::Thumbnail(256)] };
    let plan = plan_chain(&chain, 100, 80, false);
    assert!(!plan.changed);
    let gif = plan_chain(&chain, 100, 80, true);
    assert!(gif.changed);
    assert!(gif.steps.is_empty());
}

#[test]
fn blur_at_or_below_zero_changes_nothing() {
    let chain = ProcessChain { ops: vec![Op::Blur(Sigma::new("0".to_string(), false))] };
    assert!(!plan_chain(&chain, 10, 10, false).changed);
    let chain = ProcessChain { ops: vec![Op::Blur(Sigma::new("1.5".to_string(), true))] };
    let plan = plan_chain(&chain, 10, 10, false);
    assert!(plan.changed);
    assert!(matches!(&plan.steps[0], Step::Blur(s) if s == "1.5"));
}

#[test]
fn chained_thumbnails_shrink_in_turn() {
    let chain = ProcessChain { ops: vec![Op::Thumbnail(512), Op::Thumbnail(128)] };
    let plan = plan_chain(&chain, 1024, 512, false);
    assert_eq!(plan.steps.len(), 2);
    assert!(matches!(plan.steps[0], Step::Sample { width: 512, height: 256 }));
    assert!(matches!(plan.steps[1], Step::Sample { width: 128, height: 64 }));
}


#[test]
fn request_path_split() {
    let (segs, alias) = pict_rs::processor::split_request_path("thumbnail256/blur2/abc.png");
    assert_eq!(segs, vec!["thumbnail256".to_string(), "blur2".to_string()]);
    assert_eq!(alias, "abc.png");
    let (segs, alias) = pict_rs::processor::split_request_path("abc.png");
    assert!(segs.is_empty());
    assert_eq!(alias, "abc.png");
    let (segs, alias) = pict_rs::processor::split_request_path("identity//x.jpg");
    assert_eq!(segs, vec!["identity".to_string(), String::new()]);
    assert_eq!(alias, "x.jpg");
    let (segs, alias) = pict_rs::processor::split_request_path("identity/");
    assert_eq!(segs, vec!["identity".to_string()]);
    assert_eq!(alias, "");
}
