use workingcopy::filestate::FileState;
use workingcopy::filestate::COPIED;
use workingcopy::filestate::EXIST_NEXT;
use workingcopy::filestate::EXIST_P1;
use workingcopy::filestate::EXIST_P2;
use workingcopy::manifest::HgId;
use workingcopy::treestate::TreeState;
use workingcopy::RepoPathBuf;

fn path(s: &str) -> RepoPathBuf {
    RepoPathBuf::from_bytes(s.as_bytes().to_vec()).unwrap()
}

fn texts(v: &Vec<RepoPathBuf>) -> Vec<String> {
    v.iter().map(|p| String::from_utf8(p.as_bytes().clone()).unwrap()).collect()
}

#[test]
fn added_query_finds_only_added_records() {
    let mut ts = TreeState::new(vec![HgId { id: 1 }]);
    ts.insert(&path("a/b.txt"), FileState::new(EXIST_P1 | EXIST_NEXT));
    ts.insert(&path("c.txt"), FileState::new(EXIST_NEXT));
    ts.insert(&path("a/deep/d.txt"), FileState::new(EXIST_NEXT));
    ts.insert(&path("gone.txt"), FileState::new(EXIST_P1));
    ts.insert(&path("merged.txt"), FileState::new(EXIST_P2 | EXIST_NEXT));

    let mut added = texts(&ts.visit_added());
    added.sort();
    assert_eq!(added, vec!["a/deep/d.txt".to_string(), "c.txt".to_string()]);
}

#[test]
fn pruned_and_unpruned_traversals_agree() {
    let mut ts = TreeState::new(vec![]);
    ts.insert(&path("x/y/z.txt"), FileState::new(EXIST_NEXT));
    ts.insert(&path("x/y/w.txt"), FileState::new(EXIST_P1));
    ts.insert(&path("x/q.txt"), FileState::new(EXIST_P1 | EXIST_P2));
    ts.insert(&path("top.txt"), FileState::new(EXIST_NEXT));

    assert_eq!(texts(&ts.visit_added()), texts(&ts.visit_added_unpruned()));
}

#[test]
fn pruned_and_unpruned_traversals_agree_on_generated_stores() {
    // A small linear congruential generator drives the shape of the store.
    let mut seed: u64 = 0x2545f4914f6cdd1d;
    let mut next = move || {
        seed = seed.wrapping_mul(6364136223846793005).wrapping_add(1442695040888963407);
        (seed >> 33) as u32
    };
    let dirs = ["a", "a/b", "a/b/c", "d", "d/e", "f"];
    for round in 0..8 {
        let mut ts = TreeState::new(vec![]);
        let mut expected: Vec<String> = Vec::new();
        let files = 3 + (next() % 20) as usize;
        for k in 0..files {
            let dir = dirs[(next() as usize) % dirs.len()];
            let name = format!("{}/r{}k{}.txt", dir, round, k);
            let bits = (next() % 16) as u16;
            ts.insert(&path(&name), FileState::new(bits));
            if bits & (EXIST_P1 | EXIST_P2) == 0 && bits & EXIST_NEXT != 0 {
                expected.push(name);
            }
        }
        let mut pruned = texts(&ts.visit_added());
        let mut full = texts(&ts.visit_added_unpruned());
        assert_eq!(pruned, full);
        pruned.sort();
        full.sort();
        expected.sort();
        assert_eq!(pruned, expected);
        assert_eq!(full, expected);
    }
}

#[test]
fn mask_query_finds_copied_records() {
    let mut ts = TreeState::new(vec![]);
    ts.insert(&path("kept.txt"), FileState::new(EXIST_P1 | EXIST_NEXT));
    ts.insert(
        &path("moved.txt"),
        FileState::copied_from(EXIST_NEXT | COPIED, path("source.txt")),
    );
    let records = ts.visit_by_state(COPIED);
    assert_eq!(records.len(), 1);
    assert_eq!(records[0].path.as_bytes(), path("moved.txt").as_bytes());
}

#[test]
fn record_lookup_and_count() {
    let mut ts = TreeState::new(vec![HgId { id: 7 }, HgId { id: 8 }]);
    assert_eq!(ts.len(), 0);
    ts.insert(&path("a/b.txt"), FileState::new(EXIST_P1));
    ts.insert(&path("a/c.txt"), FileState::new(EXIST_NEXT));
    assert_eq!(ts.len(), 2);

    let st = ts.get(&path("a/b.txt")).unwrap();
    assert_eq!(st.state, EXIST_P1);
    assert!(st.intersects(EXIST_P1));
    assert!(!st.intersects(EXIST_NEXT));
    assert!(ts.get(&path("a/unseen.txt")).is_none());

    assert_eq!(ts.parents().len(), 2);
    assert_eq!(ts.parents()[0], HgId { id: 7 });
}
