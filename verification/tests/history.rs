//! Path filters over history.
use ix::history::cache::{derive_tip, root_anchor_id, Cache, DeriveAnchor};
use ix::history::commits::{has_empty_description, replace_ids};
use ix::history::error::{Error, Id, Kind};
use ix::history::filter::{Elide, Filter, Semantics, SPEC_FILE_NAME};
use ix::history::lift::unfilter;
use ix::history::store::{encode_tree, Store, TreeEntry};
use ix::text::hex_of;

const DIR: &str = "40000";
const FILE: &str = "100644";

fn entry(mode: &str, name: &str, id: &Id) -> TreeEntry {
    TreeEntry {
        mode: mode.as_bytes().to_vec(),
        directory: mode == DIR,
        name: name.as_bytes().to_vec(),
        id: id.clone(),
    }
}

fn blob(store: &mut Store, text: &str) -> Id {
    store.write(Kind::Blob, text.as_bytes().to_vec()).unwrap()
}

fn tree(store: &mut Store, entries: Vec<TreeEntry>) -> Id {
    let data = encode_tree(&entries);
    store.write(Kind::Tree, data).unwrap()
}

fn raw(tree: &Id, parents: &[&Id], message: &str) -> Vec<u8> {
    let mut s = format!("tree {}\n", hex_of(tree));
    for p in parents {
        s.push_str(&format!("parent {}\n", hex_of(p)));
    }
    s.push_str("author A U Thor <author@example.com> 1112912173 -0700\n");
    s.push_str("committer C O Mitter <committer@example.com> 1112912273 +0100\n");
    s.push_str(&format!("\n{message}\n"));
    s.into_bytes()
}

fn commit(store: &mut Store, tree: &Id, parents: &[&Id], message: &str) -> Id {
    store.write(Kind::Commit, raw(tree, parents, message)).unwrap()
}

/// A tree with one file, `f`, holding `text`.
fn snapshot(store: &mut Store, text: &str) -> Id {
    let b = blob(store, text);
    tree(store, vec![entry(FILE, "f", &b)])
}

/// A tree with `sub` at `vendor/up` and a file beside `vendor`.
fn wrapped(store: &mut Store, sub: &Id, beside: &str) -> Id {
    let vendor = tree(store, vec![entry(DIR, "up", sub)]);
    let b = blob(store, beside);
    tree(store, vec![entry(FILE, "README", &b), entry(DIR, "vendor", &vendor)])
}

fn message_of<T>(r: Result<T, Error>) -> String {
    match r {
        Ok(_) => "no error".to_owned(),
        Err(e) => e.message(),
    }
}

fn commit_of(store: &Store, id: &Id) -> (Id, Vec<Id>) {
    let c = store.commit(id).unwrap();
    (c.tree, c.parents)
}

#[test]
fn object_ids_are_those_of_git() {
    let mut store = Store::new(false);
    let b = blob(&mut store, "hello\n");
    assert_eq!(hex_of(&b), "ce013625030ba8dba906f756967f9e9ca394464a");
    let t = tree(&mut store, vec![]);
    assert_eq!(hex_of(&t), "4b825dc642cb6eb9a060e54bf8d69288fbee4904");
    let mut wide = Store::new(true);
    let t = tree(&mut wide, vec![]);
    assert_eq!(
        hex_of(&t),
        "6ef19b41225c5369f1c104d45d8d85efa9b057b53b14b4b9b939dd74decc5321"
    );
}

/// An upstream history with a merge, an empty commit and a duplicated parent.
fn upstream(store: &mut Store) -> Vec<Id> {
    let t0 = snapshot(store, "zero");
    let t1 = snapshot(store, "one");
    let t2 = snapshot(store, "two");
    let c0 = commit(store, &t0, &[], "root");
    let c1 = commit(store, &t1, &[&c0], "one");
    let c2 = commit(store, &t1, &[&c1], "empty on purpose");
    let c3 = commit(store, &t2, &[&c0], "side");
    let c4 = commit(store, &t1, &[&c2, &c3], "trivial merge");
    let c5 = commit(store, &t2, &[&c4, &c4], "the same parent twice");
    vec![c0, c1, c2, c3, c4, c5]
}

/// Every commit lifted in turn onto a repository of its own.
fn inject(store: &mut Store, all: &[Id], filter: &Filter, cache: &mut Cache) -> Vec<Id> {
    let b = blob(store, "beside");
    let base = tree(store, vec![entry(FILE, "README", &b)]);
    let onto = commit(store, &base, &[], "repository");
    let mut lifted = Vec::new();
    for c in all {
        lifted.push(unfilter(store, c, &onto, filter, cache).unwrap());
    }
    lifted
}

#[test]
fn an_injected_history_comes_back_with_its_ids() {
    for wide in [false, true] {
        let mut store = Store::new(wide);
        let all = upstream(&mut store);
        for keep in [false, true] {
            for elide in [Elide::Unchanged, Elide::Nothing] {
                let filter = Filter::prefix("vendor/up")
                    .unwrap()
                    .elide(elide)
                    .keep_trivial_merges(keep);
                let mut cache = Cache::new();
                let lifted = inject(&mut store, &all, &filter, &mut cache);
                for (c, l) in all.iter().zip(&lifted) {
                    assert_ne!(c, l);
                    assert_eq!(ix::history::cache::derive(&mut store, l, &filter, &mut cache).unwrap(), Some(c.clone()));
                    let mut fresh = Cache::new();
                    assert_eq!(ix::history::cache::derive(&mut store, l, &filter, &mut fresh).unwrap(), Some(c.clone()));
                    let mut tip = Cache::new();
                    assert_eq!(
                        derive_tip(&mut store, l, &filter, &mut tip).unwrap(),
                        Some(c.clone())
                    );
                }
            }
        }
    }
}

#[test]
fn dropping_empty_commits_moves_hashes() {
    let mut store = Store::new(false);
    let all = upstream(&mut store);
    let filter = Filter::prefix("vendor/up")
        .unwrap()
        .elide(Elide::UnchangedIncludingAlreadyEmpty);
    let mut cache = Cache::new();
    let lifted = inject(&mut store, &all, &filter, &mut cache);
    let got = ix::history::cache::derive(&mut store, &lifted[2], &filter, &mut cache).unwrap();
    // The commit that was empty on purpose is gone, and its parent stands for
    // it.
    assert_eq!(got, Some(all[1].clone()));
    assert_eq!(cache.elided(&lifted[2], &filter), Some(all[2].clone()));
    let got = ix::history::cache::derive(&mut store, &lifted[5], &filter, &mut cache).unwrap();
    assert_ne!(got, Some(all[5].clone()));
}

#[test]
fn commits_beside_the_path_are_dropped_and_remembered() {
    let mut store = Store::new(false);
    let filter = Filter::prefix("vendor/up").unwrap();
    let sub = snapshot(&mut store, "x");
    let w0 = wrapped(&mut store, &sub, "a");
    let w1 = wrapped(&mut store, &sub, "b");
    let m0 = commit(&mut store, &w0, &[], "adds");
    let m1 = commit(&mut store, &w1, &[&m0], "elsewhere");
    let mut cache = Cache::new();
    let v0 = ix::history::cache::derive(&mut store, &m0, &filter, &mut cache).unwrap().unwrap();
    let v1 = ix::history::cache::derive(&mut store, &m1, &filter, &mut cache).unwrap().unwrap();
    assert_eq!(v0, v1);
    assert_eq!(commit_of(&store, &v0), (sub.clone(), vec![]));
    // What it would have been.
    let would_be = commit(&mut store, &sub, &[&v0], "elsewhere");
    assert_eq!(cache.elided(&m1, &filter), Some(would_be));
    assert_eq!(cache.elided(&m0, &filter), None);
    assert_eq!(cache.derived(&m1, &filter), Some(Some(v0.clone())));
    assert_eq!(cache.derived(&would_be_absent(), &filter), None);
    assert_eq!(cache.exhaustive_derivations(), 2);
    assert_eq!(cache.commit_entries(), 2);
    assert_eq!(cache.commit_reads(), 2);
    // Both roots differ, and share the tree below `vendor`.
    assert_eq!(cache.tree_entries(), 3);
    assert_eq!(cache.tree_reads(), 3);
    // Keeping everything keeps it.
    let keep = Filter::prefix("vendor/up").unwrap().elide(Elide::Nothing);
    let k1 = ix::history::cache::derive(&mut store, &m1, &keep, &mut cache).unwrap().unwrap();
    assert_eq!(commit_of(&store, &k1), (sub, vec![v0]));
    cache.discard_filter(&filter);
    assert_eq!(cache.derived(&m1, &filter), None);
    assert_eq!(cache.commit_entries(), 2);
}

fn would_be_absent() -> Id {
    vec![7; 20]
}

#[test]
fn a_path_that_never_existed_has_no_history() {
    let mut store = Store::new(false);
    let filter = Filter::prefix("vendor/up").unwrap();
    let t = snapshot(&mut store, "x");
    let c = commit(&mut store, &t, &[], "no vendor");
    let mut cache = Cache::new();
    assert_eq!(ix::history::cache::derive(&mut store, &c, &filter, &mut cache).unwrap(), None);
    assert_eq!(cache.derived(&c, &filter), Some(None));
    // A file where a directory is expected counts as absent.
    let b = blob(&mut store, "not a directory");
    let t = tree(&mut store, vec![entry(FILE, "vendor", &b)]);
    let c = commit(&mut store, &t, &[&c], "file");
    assert_eq!(ix::history::cache::derive(&mut store, &c, &filter, &mut cache).unwrap(), None);
}

#[test]
fn deleting_the_path_empties_the_view() {
    let mut store = Store::new(false);
    let filter = Filter::prefix("vendor/up").unwrap();
    let sub = snapshot(&mut store, "x");
    let w = wrapped(&mut store, &sub, "a");
    let m0 = commit(&mut store, &w, &[], "adds");
    let gone = snapshot(&mut store, "a");
    let m1 = commit(&mut store, &gone, &[&m0], "deletes");
    let mut cache = Cache::new();
    let v1 = ix::history::cache::derive(&mut store, &m1, &filter, &mut cache).unwrap().unwrap();
    let (t, parents) = commit_of(&store, &v1);
    assert_eq!(hex_of(&t), "4b825dc642cb6eb9a060e54bf8d69288fbee4904");
    assert_eq!(parents.len(), 1);
}

#[test]
fn merges_that_say_nothing_collapse() {
    let mut store = Store::new(false);
    let filter = Filter::prefix("vendor/up").unwrap();
    let a = snapshot(&mut store, "a");
    let b = snapshot(&mut store, "b");
    let wa = wrapped(&mut store, &a, "one");
    let wb = wrapped(&mut store, &b, "one");
    let merged = wrapped(&mut store, &a, "two");
    let m0 = commit(&mut store, &wa, &[], "a");
    let m1 = commit(&mut store, &wb, &[&m0], "b");
    let m2 = commit(&mut store, &merged, &[&m0, &m1], "keeps ours");
    let mut cache = Cache::new();
    let v0 = ix::history::cache::derive(&mut store, &m0, &filter, &mut cache).unwrap();
    assert_eq!(ix::history::cache::derive(&mut store, &m2, &filter, &mut cache).unwrap(), v0);
    let mut tip = Cache::new();
    assert_eq!(derive_tip(&mut store, &m2, &filter, &mut tip).unwrap(), v0);
    // The other side was never looked at.
    assert_eq!(tip.derived(&m1, &filter), None);
    let keep = Filter::prefix("vendor/up").unwrap().keep_trivial_merges(true);
    let mut cache = Cache::new();
    let kept = ix::history::cache::derive(&mut store, &m2, &keep, &mut cache).unwrap().unwrap();
    assert_eq!(commit_of(&store, &kept).1.len(), 2);
}

#[test]
fn a_lift_onto_the_tip_derives_back() {
    let mut store = Store::new(false);
    let sub = snapshot(&mut store, "x");
    let w0 = wrapped(&mut store, &sub, "a");
    let w1 = wrapped(&mut store, &sub, "b");
    let m0 = commit(&mut store, &w0, &[], "adds");
    let m1 = commit(&mut store, &w1, &[&m0], "elsewhere");
    for (semantics, parent) in [(Semantics::V1, &m0), (Semantics::V2, &m1)] {
        let filter = Filter::prefix("vendor/up").unwrap().semantics(semantics);
        let mut cache = Cache::new();
        let v = ix::history::cache::derive(&mut store, &m1, &filter, &mut cache).unwrap().unwrap();
        let next = snapshot(&mut store, "y");
        let patch = commit(&mut store, &next, &[&v], "patch");
        let lifted = unfilter(&mut store, &patch, &m1, &filter, &mut cache).unwrap();
        assert_eq!(commit_of(&store, &lifted).1, vec![parent.clone()]);
        assert_eq!(
            ix::history::cache::derive(&mut store, &lifted, &filter, &mut cache).unwrap(),
            Some(patch.clone())
        );
    }
}

#[test]
fn grafts_keep_the_order_of_trees() {
    let mut store = Store::new(false);
    let b = blob(&mut store, "x");
    let sub = snapshot(&mut store, "y");
    // `up.txt` comes before the directory `up`, whose name counts as `up/`.
    let base = tree(&mut store, vec![entry(FILE, "up.txt", &b), entry(FILE, "zz", &b)]);
    let names = vec![b"up".to_vec()];
    let grafted = store.graft_tree(&base, &names, 0, &sub).unwrap();
    let got: Vec<Vec<u8>> = store
        .entries(&grafted)
        .unwrap()
        .into_iter()
        .map(|e| e.name)
        .collect();
    assert_eq!(got, vec![b"up.txt".to_vec(), b"up".to_vec(), b"zz".to_vec()]);
    assert_eq!(store.filtered_tree(&grafted, &names).unwrap(), Some(sub.clone()));
    // A file of the same name is replaced.
    let base = tree(&mut store, vec![entry(FILE, "up", &b)]);
    let grafted = store.graft_tree(&base, &names, 0, &sub).unwrap();
    assert_eq!(store.entries(&grafted).unwrap().len(), 1);
    assert_eq!(store.filtered_tree(&grafted, &names).unwrap(), Some(sub));
}

#[test]
fn only_tree_and_parent_lines_are_replaced() {
    let tree = vec![0xab; 20];
    let other = vec![0x01; 20];
    let body = "author A <a@b> 1 +0000\ngpgsig -----BEGIN\n line\n -----END\ncommitter\n\nmsg";
    let old = format!("tree {}\nparent {}\n{body}", "0".repeat(40), "F".repeat(40));
    let new = replace_ids(&old.into_bytes(), false, &tree, &vec![other.clone(), other]).unwrap();
    let want = format!(
        "tree {}\nparent {}\nparent {}\n{body}",
        "ab".repeat(20),
        "01".repeat(20),
        "01".repeat(20)
    );
    assert_eq!(new, want.into_bytes());
    assert_eq!(
        message_of(replace_ids(&b"blob".to_vec(), false, &tree, &vec![])),
        "commit object is malformed"
    );
}

#[test]
fn descriptions_are_blank_or_not() {
    let mut store = Store::new(false);
    let t = snapshot(&mut store, "x");
    assert!(!has_empty_description(&raw(&t, &[], "says something"), false).unwrap());
    assert!(has_empty_description(&raw(&t, &[], " \t\r\n"), false).unwrap());
    assert_eq!(
        message_of(has_empty_description(&b"tree".to_vec(), false)),
        "commit object is malformed"
    );
}

#[test]
fn missing_and_wrong_objects_are_named() {
    let mut store = Store::new(false);
    let filter = Filter::prefix("vendor/up").unwrap();
    let mut cache = Cache::new();
    let absent = vec![0x11; 20];
    let hex = "11".repeat(20);
    assert_eq!(
        message_of(ix::history::cache::derive(&mut store, &absent, &filter, &mut cache)),
        format!("could not read object {hex}")
    );
    let t = snapshot(&mut store, "x");
    assert_eq!(
        message_of(ix::history::cache::derive(&mut store, &t, &filter, &mut cache)),
        format!("expected object {} to be a commit", hex_of(&t))
    );
    // A tree that is not there is asked for by its id; once it is there the
    // derivation goes on.
    let c = commit(&mut store, &absent, &[], "no tree yet");
    assert_eq!(
        message_of(ix::history::cache::derive(&mut store, &c, &filter, &mut cache)),
        format!("could not read object {hex}")
    );
    store.add(absent.clone(), Kind::Tree, b"not a tree".to_vec());
    assert_eq!(
        message_of(ix::history::cache::derive(&mut store, &c, &filter, &mut cache)),
        format!("expected object {hex} to be a tree")
    );
    store.add(vec![0x22; 20], Kind::Commit, b"tree nonsense".to_vec());
    assert_eq!(
        message_of(ix::history::cache::derive(&mut store, &vec![0x22; 20], &filter, &mut cache)),
        "commit object is malformed"
    );
}

#[test]
fn a_merge_with_an_unknown_side_is_not_lifted() {
    let mut store = Store::new(false);
    let filter = Filter::prefix("vendor/up").unwrap();
    let t = snapshot(&mut store, "x");
    let a = commit(&mut store, &t, &[], "a");
    let b = commit(&mut store, &t, &[], "b");
    let merge = commit(&mut store, &t, &[&a, &b], "merge");
    let mut cache = Cache::new();
    assert_eq!(
        message_of(unfilter(&mut store, &merge, &a, &filter, &mut cache)),
        format!(
            "commit {} of the view has no counterpart in the parent repository",
            hex_of(&a)
        )
    );
}

#[test]
fn anchors_are_checked_before_they_are_believed() {
    let mut store = Store::new(false);
    let filter = Filter::prefix("vendor/up").unwrap();
    let sub = snapshot(&mut store, "x");
    let other = snapshot(&mut store, "y");
    let w = wrapped(&mut store, &sub, "a");
    let m0 = commit(&mut store, &w, &[], "adds");
    let w1 = wrapped(&mut store, &other, "a");
    let m1 = commit(&mut store, &w1, &[&m0], "changes");
    let published = commit(&mut store, &sub, &[], "published");
    let wrong = commit(&mut store, &other, &[], "wrong tree");
    let mut cache = Cache::new();
    let good = DeriveAnchor { source: m0.clone(), view: published.clone() };
    let bad = DeriveAnchor { source: m0.clone(), view: wrong.clone() };
    assert_eq!(
        message_of(cache.seed_anchor(&store, &m1, &vec![m1.clone()], &filter, &good)),
        format!("view anchor source {} is not an ancestor of {}", hex_of(&m0), hex_of(&m1))
    );
    assert_eq!(cache.ancestry_walks(), 1);
    assert!(cache.knows_ancestry(&m1));
    let mut cache = Cache::new();
    let reachable = vec![m1.clone(), m0.clone()];
    assert_eq!(
        message_of(cache.seed_anchor(&store, &m1, &reachable, &filter, &bad)),
        format!(
            "view anchor {} -> {} has different trees: filtered source {}, view {}",
            hex_of(&m0),
            hex_of(&wrong),
            hex_of(&sub),
            hex_of(&other)
        )
    );
    assert!(cache.seed_anchor(&store, &m1, &vec![], &filter, &good).is_ok());
    assert_eq!(cache.ancestry_walks(), 1);
    // Deriving goes on from the anchor.
    let v = ix::history::cache::derive(&mut store, &m1, &filter, &mut cache).unwrap().unwrap();
    assert_eq!(commit_of(&store, &v), (other, vec![published.clone()]));
    let bytes = raw(&sub, &[], "published");
    let mut cache = Cache::new();
    assert!(cache
        .validate_fetched_anchor_after_ancestry_check(&store, &filter, &good, &bytes)
        .is_ok());
    assert!(cache
        .validate_fetched_anchor(&store, &m1, &reachable, &filter, &good, &bytes)
        .is_ok());
    assert!(cache.seed_anchor_after_ancestry_check(&store, &filter, &good).is_ok());
    let forged = raw(&sub, &[], "forged");
    let actual = commit(&mut store, &sub, &[], "forged");
    assert_eq!(
        message_of(cache.validate_fetched_anchor_after_ancestry_check(
            &store, &filter, &good, &forged
        )),
        format!(
            "fetched view anchor hashes to {}, expected {}",
            hex_of(&actual),
            hex_of(&published)
        )
    );
}

#[test]
fn a_root_anchor_has_no_parents() {
    let mut store = Store::new(false);
    let filter = Filter::prefix("vendor/up").unwrap();
    let sub = snapshot(&mut store, "x");
    let w = wrapped(&mut store, &sub, "a");
    let m0 = commit(&mut store, &w, &[], "first");
    let m1 = commit(&mut store, &w, &[&m0], "second");
    let id = root_anchor_id(&store, &m1, &filter).unwrap();
    let mut cache = Cache::new();
    let anchor = DeriveAnchor { source: m1.clone(), view: id.clone() };
    assert!(cache
        .create_root_anchor_after_ancestry_check(&mut store, &filter, &anchor)
        .is_ok());
    assert_eq!(commit_of(&store, &id), (sub.clone(), vec![]));
    assert_eq!(id, commit(&mut store, &sub, &[], "second"));
    assert_eq!(cache.derived(&m1, &filter), Some(Some(id)));
    let wrong = DeriveAnchor { source: m1, view: m0.clone() };
    assert!(message_of(cache.create_root_anchor_after_ancestry_check(&mut store, &filter, &wrong))
        .ends_with(&format!("expected {}", hex_of(&m0))));
}

#[test]
fn specs_are_read_back() {
    assert_eq!(SPEC_FILE_NAME, ".jj-views");
    let filter = Filter::prefix("/vendor/up/").unwrap();
    let spec = "semantics=1;prefix=vendor/up;elide=unchanged;trivial-merges=drop";
    assert_eq!(filter.path(), "vendor/up");
    assert_eq!(filter.spec(), spec);
    let filter = filter
        .semantics(Semantics::V2)
        .elide(Elide::UnchangedIncludingAlreadyEmpty)
        .keep_trivial_merges(true);
    let spec = "semantics=2;prefix=vendor/up;elide=including-already-empty;trivial-merges=keep";
    assert_eq!(filter.spec(), spec);
    assert_eq!(Filter::parse(spec).unwrap().spec(), spec);
    let file = filter.write_spec();
    assert!(file.starts_with("# Rules that produced"));
    let read = Filter::read_specs(&format!("{file}\n  \n  {spec}  \r\n")).unwrap();
    assert_eq!(read.len(), 2);
    assert_eq!(read[1].spec(), spec);
    // Any order, and the last of a field wins.
    let odd = "trivial-merges=keep;elide=nothing;prefix=x;semantics=2;prefix=a";
    assert_eq!(
        Filter::parse(odd).unwrap().spec(),
        "semantics=2;prefix=a;elide=nothing;trivial-merges=keep"
    );
    assert_eq!(Semantics::V1.as_str(), "1");
}

#[test]
fn specs_that_cannot_be_read_are_refused() {
    assert_eq!(
        message_of(Filter::parse("semantics=3;prefix=a;elide=nothing;trivial-merges=keep")),
        "filter spec records semantics version \"3\", which this build does not implement; it knows 1, 2"
    );
    for bad in [
        "",
        "semantics=1",
        "semantics=1;prefix=a;elide=nothing",
        "semantics=1;prefix=a;elide=some;trivial-merges=keep",
        "semantics=1;prefix=a;elide=nothing;trivial-merges=maybe",
        "semantics=1;prefix=a;elide=nothing;trivial-merges=keep;new=rule",
        "prefix=a;elide=nothing;trivial-merges=keep",
    ] {
        assert_eq!(
            message_of(Filter::parse(bad)),
            format!("filter spec {bad:?} is not one this version can read")
        );
    }
    assert!(Filter::read_specs("# only a comment\n").unwrap().is_empty());
    assert!(Filter::read_specs("nonsense\n").is_err());
}

#[test]
fn unusable_paths_are_refused() {
    for bad in ["", "/", "a//b", "a/./b", "../a", "a;b", "a\tb", "a/\u{7f}"] {
        assert_eq!(
            message_of(Filter::prefix(bad)),
            format!("filter path {bad:?} must be relative, with no empty or dot components")
        );
    }
    assert_eq!(Filter::prefix("caf\u{e9}/x").unwrap().names()[0], "caf\u{e9}".as_bytes());
}

#[test]
fn filters_and_versions_keep_to_themselves() {
    let mut store = Store::new(false);
    let sub = snapshot(&mut store, "x");
    let w = wrapped(&mut store, &sub, "a");
    let m = commit(&mut store, &w, &[], "adds");
    let one = Filter::prefix("vendor/up").unwrap();
    let two = Filter::prefix("vendor/up").unwrap().semantics(Semantics::V2);
    let mut cache = Cache::new();
    let v = ix::history::cache::derive(&mut store, &m, &one, &mut cache).unwrap();
    assert_eq!(cache.derived(&m, &two), None);
    assert_eq!(ix::history::cache::derive(&mut store, &m, &two, &mut cache).unwrap(), v);
    // Deriving again reads nothing.
    let (trees, commits) = (cache.tree_reads(), cache.commit_reads());
    assert_eq!(ix::history::cache::derive(&mut store, &m, &one, &mut cache).unwrap(), v);
    assert_eq!((cache.tree_reads(), cache.commit_reads()), (trees, commits));
}
