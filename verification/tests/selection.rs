use fortuner::corpus::Fortune;
use fortuner::select::{chosen_text, pick_fortune, random_line, shown_pick};

fn fortune(source: &str, text: &str) -> Fortune {
    Fortune { source: source.to_string(), text: text.to_string() }
}

fn numbered(n: usize) -> Vec<Fortune> {
    (0..n).map(|i| fortune("numbers", &format!("fortune {}", i))).collect()
}

#[test]
fn test_pick_fortune() {
    let fortunes = &[
        Fortune {
            source: "fortunes".to_string(),
            text: "You cannot achieve the impossible without \
                attempting the absurd."
                .to_string(),
        },
        Fortune {
            source: "fortunes".to_string(),
            text: "Assumption is the mother of all screw-apps.".to_string(),
        },
        Fortune {
            source: "fortunes".to_string(),
            text: "Neckties strangle clear thinking.".to_string(),
        },
    ];

    assert_eq!(
        pick_fortune(fortunes, Some(1)).unwrap(),
        "Neckties strangle clear thinking.",
    );
}

#[test]
fn same_seed_gives_the_same_text() {
    let fortunes = numbered(50);
    for seed in [0u64, 1, 2, 42, u64::MAX] {
        let first = pick_fortune(&fortunes, Some(seed));
        let second = pick_fortune(&fortunes, Some(seed));
        assert!(first.is_some());
        assert_eq!(first, second);
    }
}

#[test]
fn different_seeds_can_give_different_texts() {
    let fortunes = numbered(50);
    let first = pick_fortune(&fortunes, Some(0)).unwrap();
    let differs = (1..64u64).any(|seed| pick_fortune(&fortunes, Some(seed)).unwrap() != first);
    assert!(differs);
}

#[test]
fn seeded_pick_is_a_text_of_the_corpus() {
    let fortunes = numbered(7);
    for seed in 0..32u64 {
        let picked = pick_fortune(&fortunes, Some(seed)).unwrap();
        assert!(fortunes.iter().any(|f| f.text == picked));
    }
}

#[test]
fn unseeded_pick_is_a_text_of_the_corpus() {
    let fortunes = numbered(7);
    for _ in 0..32 {
        let picked = pick_fortune(&fortunes, None).unwrap();
        assert!(fortunes.iter().any(|f| f.text == picked));
    }
}

#[test]
fn pick_is_the_text_and_not_the_source() {
    let fortunes = vec![fortune("label", "the text")];
    assert_eq!(pick_fortune(&fortunes, Some(9)).unwrap(), "the text");
    assert_eq!(pick_fortune(&fortunes, None).unwrap(), "the text");
}

#[test]
fn empty_corpus_gives_nothing() {
    assert_eq!(pick_fortune(&[], Some(1)), None);
    assert_eq!(pick_fortune(&[], None), None);
}

#[test]
fn empty_corpus_prints_the_fixed_line() {
    assert_eq!(random_line(&[], None), "No fortunes found");
    assert_eq!(random_line(&[], Some(3)), "No fortunes found");
}

#[test]
fn random_line_is_the_picked_text() {
    let fortunes = numbered(20);
    for seed in 0..16u64 {
        assert_eq!(random_line(&fortunes, Some(seed)), pick_fortune(&fortunes, Some(seed)).unwrap());
    }
    let line = random_line(&fortunes, None);
    assert!(fortunes.iter().any(|f| f.text == line));
}

#[test]
fn shown_pick_cases() {
    assert_eq!(shown_pick(None), "No fortunes found");
    assert_eq!(shown_pick(Some("multi\nline".to_string())), "multi\nline");
    assert_eq!(shown_pick(Some(String::new())), "");
}

#[test]
fn chosen_text_cases() {
    let f = fortune("s", "t");
    assert_eq!(chosen_text(Some(&f)), Some("t".to_string()));
    assert_eq!(chosen_text(None), None);
}
