//! Duplicate classification: the first file with a given content is the
//! original, every later one a duplicate.

use vstd::prelude::*;
use crate::args::YeeArgs;
use crate::yee_file::{models, FileModel, YeeFile};

verus! {

/// What the contracts say of a [`Store`]: the originals and the duplicates,
/// each in the order they came in.
pub struct StoreModel {
    pub originals: Seq<FileModel>,
    pub duplicates: Seq<FileModel>,
}

/// Some record among `originals` carries the hash `hash`.
pub open spec fn known(originals: Seq<FileModel>, hash: Seq<char>) -> bool {
    exists|i: int| 0 <= i < originals.len() && (#[trigger] originals[i]).hash == Some(hash)
}

/// `file` would be set apart as a duplicate: it has a hash, and an original
/// with that hash is in the store.
pub open spec fn is_duplicate(store: StoreModel, file: FileModel) -> bool {
    match file.hash {
        Some(hash) => known(store.originals, hash),
        None => false,
    }
}

/// The store after `file` came in.
pub open spec fn inserted(store: StoreModel, file: FileModel) -> StoreModel {
    if is_duplicate(store, file) {
        StoreModel { originals: store.originals, duplicates: store.duplicates.push(file) }
    } else {
        StoreModel { originals: store.originals.push(file), duplicates: store.duplicates }
    }
}

/// The store after the first `count` of `files` came in, one after the other.
pub open spec fn inserted_all(store: StoreModel, files: Seq<FileModel>, count: nat) -> StoreModel
    decreases count,
{
    if count == 0 {
        store
    } else {
        inserted(inserted_all(store, files, (count - 1) as nat), files[count - 1])
    }
}

/// The record at `position` has a hash that an earlier record of `files` has
/// too.
pub open spec fn repeats_earlier(files: Seq<FileModel>, position: int) -> bool {
    files[position].hash is Some && exists|earlier: int|
        0 <= earlier < position && (#[trigger] files[earlier]).hash == files[position].hash
}

/// Of the first `count` of `files`, those that repeat no earlier one, in order.
pub open spec fn first_seen(files: Seq<FileModel>, count: nat) -> Seq<FileModel>
    decreases count,
{
    if count == 0 {
        Seq::empty()
    } else if repeats_earlier(files, count - 1) {
        first_seen(files, (count - 1) as nat)
    } else {
        first_seen(files, (count - 1) as nat).push(files[count - 1])
    }
}

/// Of the first `count` of `files`, those that repeat an earlier one, in order.
pub open spec fn seen_again(files: Seq<FileModel>, count: nat) -> Seq<FileModel>
    decreases count,
{
    if count == 0 {
        Seq::empty()
    } else if repeats_earlier(files, count - 1) {
        seen_again(files, (count - 1) as nat).push(files[count - 1])
    } else {
        seen_again(files, (count - 1) as nat)
    }
}

/// The empty store.
pub open spec fn empty_store() -> StoreModel {
    StoreModel { originals: Seq::empty(), duplicates: Seq::empty() }
}

/// A hash is known among the records first seen exactly if one of the
/// records so far carries it.
proof fn lemma_first_seen_knows(files: Seq<FileModel>, count: nat, hash: Seq<char>)
    requires
        count <= files.len(),
    ensures
        known(first_seen(files, count), hash) <==> exists|i: int|
            0 <= i < count && files[i].hash == Some(hash),
    decreases count,
{
    if count > 0 {
        let before = (count - 1) as nat;
        lemma_first_seen_knows(files, before, hash);
        let last = files[count - 1];
        if known(first_seen(files, count), hash) {
            let k = choose|k: int|
                0 <= k < first_seen(files, count).len() && first_seen(files, count)[k].hash
                    == Some(hash);
            if k < first_seen(files, before).len() {
                assert(first_seen(files, before)[k].hash == Some(hash));
                assert(known(first_seen(files, before), hash));
            } else {
                assert(files[count - 1].hash == Some(hash));
            }
        }
        if exists|i: int| 0 <= i < count && files[i].hash == Some(hash) {
            let i = choose|i: int| 0 <= i < count && files[i].hash == Some(hash);
            if i < before || repeats_earlier(files, count - 1) {
                if !(i < before) {
                    let earlier = choose|earlier: int|
                        0 <= earlier < count - 1 && (#[trigger] files[earlier]).hash == files[count - 1].hash;
                    assert(files[earlier].hash == Some(hash));
                }
                assert(known(first_seen(files, before), hash));
                let k = choose|k: int|
                    0 <= k < first_seen(files, before).len() && first_seen(files, before)[k].hash
                        == Some(hash);
                assert(first_seen(files, count)[k].hash == Some(hash));
            } else {
                let k = first_seen(files, before).len() as int;
                assert(first_seen(files, count)[k].hash == Some(hash));
            }
        }
    }
}

/// Classification, said at once: of records that come into an empty store one
/// after the other, a record is set apart as a duplicate exactly if it has a
/// hash that an earlier record has too; every other record, one without a
/// hash among them, is an original. Both lists keep the order of arrival.
pub proof fn lemma_classification(files: Seq<FileModel>, count: nat)
    requires
        count <= files.len(),
    ensures
        inserted_all(empty_store(), files, count).originals == first_seen(files, count),
        inserted_all(empty_store(), files, count).duplicates == seen_again(files, count),
    decreases count,
{
    if count > 0 {
        let before = (count - 1) as nat;
        lemma_classification(files, before);
        let file = files[count - 1];
        match file.hash {
            Some(hash) => {
                lemma_first_seen_knows(files, before, hash);
                if repeats_earlier(files, count - 1) {
                    let earlier = choose|earlier: int|
                        0 <= earlier < count - 1 && (#[trigger] files[earlier]).hash == files[count - 1].hash;
                    assert(files[earlier].hash == Some(hash));
                }
            },
            None => {},
        }
    }
}

/// Of two records with the same hash the later one is a duplicate, and the
/// first record with a given hash is an original. A record without a hash is
/// an original.
pub proof fn lemma_later_twin_is_duplicate(files: Seq<FileModel>, first: int, second: int)
    requires
        0 <= first < second < files.len(),
        files[first].hash is Some,
        files[first].hash == files[second].hash,
    ensures
        repeats_earlier(files, second),
        (forall|earlier: int| 0 <= earlier < first ==> files[earlier].hash != files[first].hash)
            ==> !repeats_earlier(files, first),
        forall|position: int|
            0 <= position < files.len() && files[position].hash is None ==> !repeats_earlier(
                files,
                position,
            ),
{
}

/// Every record is in exactly one of the two lists: the lists together are as
/// long as the input.
pub proof fn lemma_classification_is_a_partition(files: Seq<FileModel>, count: nat)
    requires
        count <= files.len(),
    ensures
        first_seen(files, count).len() + seen_again(files, count).len() == count,
    decreases count,
{
    if count > 0 {
        lemma_classification_is_a_partition(files, (count - 1) as nat);
    }
}

/// Every record finds its place: one that repeats an earlier record is among
/// the duplicates, every other one among the originals.
pub proof fn lemma_classified_where_it_belongs(files: Seq<FileModel>, count: nat, position: int)
    requires
        0 <= position < count <= files.len(),
    ensures
        repeats_earlier(files, position) ==> seen_again(files, count).contains(files[position]),
        !repeats_earlier(files, position) ==> first_seen(files, count).contains(files[position]),
    decreases count,
{
    if position == count - 1 {
        if repeats_earlier(files, position) {
            assert(seen_again(files, count).last() == files[position]);
        } else {
            assert(first_seen(files, count).last() == files[position]);
        }
    } else {
        let before = (count - 1) as nat;
        lemma_classified_where_it_belongs(files, before, position);
        if repeats_earlier(files, position) {
            let k = choose|k: int|
                0 <= k < seen_again(files, before).len() && seen_again(files, before)[k]
                    == files[position];
            assert(seen_again(files, count)[k] == files[position]);
        } else {
            let k = choose|k: int|
                0 <= k < first_seen(files, before).len() && first_seen(files, before)[k]
                    == files[position];
            assert(first_seen(files, count)[k] == files[position]);
        }
    }
}

/// No two of `originals` have the same hash.
pub open spec fn hashes_differ(originals: Seq<FileModel>) -> bool {
    forall|i: int, j: int|
        0 <= i < j < originals.len() && (#[trigger] originals[i]).hash is Some ==> originals[i].hash
            != (#[trigger] originals[j]).hash
}

/// Each of `duplicates` has a hash, and one of `originals` has the same.
pub open spec fn twins_are_known(originals: Seq<FileModel>, duplicates: Seq<FileModel>) -> bool {
    forall|i: int|
        0 <= i < duplicates.len() ==> (#[trigger] duplicates[i]).hash is Some && known(
            originals,
            duplicates[i].hash->0,
        )
}

/// How the files of a run are split for placement. Where duplicates are
/// tracked, a file that repeats an earlier one is a duplicate; where they are
/// not, every file is an original and nothing is set apart.
pub open spec fn split(track_duplicates: bool, files: Seq<FileModel>) -> StoreModel {
    if track_duplicates {
        StoreModel {
            originals: first_seen(files, files.len()),
            duplicates: seen_again(files, files.len()),
        }
    } else {
        StoreModel { originals: files, duplicates: Seq::empty() }
    }
}

/// The files of a run, split into originals and duplicates.
pub struct Store {
    originals: Vec<YeeFile>,
    duplicates: Vec<YeeFile>,
}

impl View for Store {
    type V = StoreModel;

    closed spec fn view(&self) -> StoreModel {
        StoreModel { originals: models(self.originals@), duplicates: models(self.duplicates@) }
    }
}

impl Store {
    #[verifier::type_invariant]
    spec fn well_formed(self) -> bool {
        &&& hashes_differ(models(self.originals@))
        &&& twins_are_known(models(self.originals@), models(self.duplicates@))
    }

    /// An empty store.
    pub fn new() -> (store: Self)
        ensures
            store@ == empty_store(),
    {
        let store = Store { originals: Vec::new(), duplicates: Vec::new() };
        assert(store@.duplicates =~= Seq::empty());
        store
    }

    /// Looks a hash up: the position, among the originals, of the one file
    /// with the hash `hash`, if there is one.
    pub fn original_with(&self, hash: &String) -> (position: Option<usize>)
        ensures
            position is Some <==> known(self@.originals, hash@),
            position matches Some(at) ==> at < self@.originals.len() && forall|k: int|
                0 <= k < self@.originals.len() ==> (k == at <==> (#[trigger] self@.originals[k]).hash
                    == Some(hash@)),
    {
        proof {
            use_type_invariant(self);
        }
        let mut at: usize = 0;
        while at < self.originals.len()
            invariant
                at <= self.originals.len(),
                hashes_differ(self@.originals),
                forall|k: int| 0 <= k < at ==> self@.originals[k].hash != Some(hash@),
            decreases self.originals.len() - at,
        {
            let same = match &self.originals[at].hash {
                Some(other) => *other == *hash,
                None => false,
            };
            if same {
                assert(self@.originals[at as int].hash == Some(hash@));
                return Some(at);
            }
            at = at + 1;
        }
        None
    }

    /// Takes `file` in. Returns `true` if it was set apart as a duplicate.
    pub fn insert(&mut self, file: YeeFile) -> (duplicate: bool)
        ensures
            duplicate == is_duplicate(old(self)@, file@),
            final(self)@ == inserted(old(self)@, file@),
    {
        let duplicate = match &file.hash {
            Some(hash) => self.original_with(hash).is_some(),
            None => false,
        };
        proof {
            use_type_invariant(&*self);
        }
        let ghost originals = old(self)@.originals;
        let ghost duplicates = old(self)@.duplicates;
        if duplicate {
            let mut list: Vec<YeeFile> = Vec::new();
            std::mem::swap(&mut list, &mut self.duplicates);
            list.push(file);
            proof {
                let grown = models(list@);
                assert(grown =~= duplicates.push(file@));
                assert forall|i: int| 0 <= i < grown.len() implies (#[trigger] grown[i]).hash
                    is Some && known(originals, grown[i].hash->0) by {
                    if i < duplicates.len() {
                        assert(grown[i] == duplicates[i]);
                    }
                }
            }
            self.duplicates = list;
        } else {
            let mut list: Vec<YeeFile> = Vec::new();
            let mut apart: Vec<YeeFile> = Vec::new();
            std::mem::swap(&mut apart, &mut self.duplicates);
            std::mem::swap(&mut list, &mut self.originals);
            list.push(file);
            proof {
                let grown = models(list@);
                assert(grown =~= originals.push(file@));
                assert forall|i: int, j: int|
                    0 <= i < j < grown.len() && (#[trigger] grown[i]).hash is Some implies grown[i].hash
                    != (#[trigger] grown[j]).hash by {
                    if j == originals.len() {
                        assert(known(originals, grown[i].hash->0));
                    }
                }
                assert forall|i: int| 0 <= i < duplicates.len() implies (
                #[trigger] duplicates[i]).hash is Some && known(grown, duplicates[i].hash->0) by {
                    let hash = duplicates[i].hash->0;
                    let k = choose|k: int|
                        0 <= k < originals.len() && (#[trigger] originals[k]).hash == Some(hash);
                    assert(grown[k].hash == Some(hash));
                }
            }
            self.originals = list;
            self.duplicates = apart;
        }
        duplicate
    }

    /// Takes the files in, one after the other, in their order.
    pub fn insert_batch(&mut self, files: Vec<YeeFile>)
        ensures
            final(self)@ == inserted_all(old(self)@, models(files@), files@.len()),
    {
        let mut taken: usize = 0;
        while taken < files.len()
            invariant
                taken <= files@.len(),
                self@ == inserted_all(old(self)@, models(files@), taken as nat),
            decreases files@.len() - taken,
        {
            let file = files[taken].clone();
            self.insert(file);
            taken = taken + 1;
        }
    }

    /// The originals, in the order they came in. No two of them have the
    /// same hash.
    pub fn originals(&self) -> (files: &Vec<YeeFile>)
        ensures
            models(files@) == self@.originals,
            hashes_differ(self@.originals),
    {
        proof {
            use_type_invariant(self);
        }
        &self.originals
    }

    /// The duplicates, in the order they came in. Each of them has the hash
    /// of an original.
    pub fn duplicates(&self) -> (files: &Vec<YeeFile>)
        ensures
            models(files@) == self@.duplicates,
            twins_are_known(self@.originals, self@.duplicates),
    {
        proof {
            use_type_invariant(self);
        }
        &self.duplicates
    }

    /// How many originals there are.
    pub fn original_count(&self) -> (count: usize)
        ensures
            count == self@.originals.len(),
    {
        self.originals.len()
    }

    /// How many duplicates there are.
    pub fn duplicate_count(&self) -> (count: usize)
        ensures
            count == self@.duplicates.len(),
    {
        self.duplicates.len()
    }

    /// How many files there are in all.
    pub fn total_count(&self) -> (count: usize)
        requires
            self@.originals.len() + self@.duplicates.len() <= usize::MAX,
        ensures
            count == self@.originals.len() + self@.duplicates.len(),
    {
        self.originals.len() + self.duplicates.len()
    }

    /// Ends the store and hands out the originals and the duplicates.
    pub fn into_parts(self) -> (parts: (Vec<YeeFile>, Vec<YeeFile>))
        ensures
            models(parts.0@) == self@.originals,
            models(parts.1@) == self@.duplicates,
    {
        (self.originals, self.duplicates)
    }
}

/// Splits the files of a run into originals and duplicates, as the settings
/// ask: by their hashes where duplicates are tracked, and not at all where
/// they are not.
pub fn classify(args: &YeeArgs, files: Vec<YeeFile>) -> (parts: (Vec<YeeFile>, Vec<YeeFile>))
    ensures
        models(parts.0@) == split(args@.track_duplicates, models(files@)).originals,
        models(parts.1@) == split(args@.track_duplicates, models(files@)).duplicates,
{
    if args.track_duplicates {
        let ghost given = models(files@);
        let mut store = Store::new();
        store.insert_batch(files);
        proof {
            lemma_classification(given, given.len());
        }
        store.into_parts()
    } else {
        (files, Vec::new())
    }
}

} // verus!
