use lrs::stemmer::stem;

fn cv(s: &str) -> Vec<char> {
    s.chars().collect()
}

fn st(s: &str) -> String {
    stem(&cv(s)).into_iter().collect()
}

#[test]
fn reference_cases() {
    assert_eq!(st("running"), "run");
    assert_eq!(st("happiness"), "happi");
    assert_eq!(st("fairly"), "fair");
}

#[test]
fn plural_endings() {
    assert_eq!(st("caresses"), "caress");
    assert_eq!(st("ponies"), "poni");
    assert_eq!(st("ties"), "tie");
    assert_eq!(st("cats"), "cat");
    assert_eq!(st("gas"), "gas");
    assert_eq!(st("this"), "this");
}

#[test]
fn verb_inflections() {
    assert_eq!(st("agreed"), "agre");
    assert_eq!(st("meetings"), "meet");
    assert_eq!(st("sized"), "size");
    assert_eq!(st("hopping"), "hop");
    assert_eq!(st("falling"), "fall");
    assert_eq!(st("filing"), "file");
}

#[test]
fn derivational_suffixes() {
    assert_eq!(st("conditional"), "condit");
    assert_eq!(st("national"), "nation");
    assert_eq!(st("generate"), "generat");
    assert_eq!(st("generously"), "generous");
}

#[test]
fn exceptional_forms() {
    assert_eq!(st("skis"), "ski");
    assert_eq!(st("skies"), "sky");
    assert_eq!(st("dying"), "die");
    assert_eq!(st("news"), "news");
    assert_eq!(st("sky"), "sky");
    assert_eq!(st("proceed"), "proceed");
    assert_eq!(st("inning"), "inning");
}

#[test]
fn short_words_left_alone() {
    assert_eq!(st("a"), "a");
    assert_eq!(st("be"), "be");
    assert_eq!(st("on"), "on");
}

#[test]
fn y_handling() {
    assert_eq!(st("cry"), "cri");
    assert_eq!(st("by"), "by");
    assert_eq!(st("say"), "say");
}
