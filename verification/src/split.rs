use vstd::prelude::*;

verus! {

/// The four parts of a training set: features `X` and targets `y`, each cut into the
/// rows that train a model and the rows that test it.
///
/// `M` is the matrix type that holds each part.
#[allow(non_snake_case)]
#[derive(Debug)]
pub struct TrainTestSplit<M> {
    pub X_train: M,
    pub X_test: M,
    pub y_train: M,
    pub y_test: M,
}

/// The name of the file that the splits of a ticker are saved to.
pub fn splits_file_name(ticker_name: &str) -> (name: String)
    ensures
        name@ == ticker_name@ + "_splits.ot"@,
{
    let mut name = String::from_str(ticker_name);
    name.append("_splits.ot");
    name
}

/// One of the four parts of a [`TrainTestSplit`].
#[derive(Debug, Clone, Copy, PartialEq, Eq)]
pub enum SplitPart {
    XTrain,
    XTest,
    YTrain,
    YTest,
}

/// The name under which a part is stored in a split file.
pub open spec fn part_name(part: SplitPart) -> Seq<char> {
    match part {
        SplitPart::XTrain => "X_train"@,
        SplitPart::XTest => "X_test"@,
        SplitPart::YTrain => "y_train"@,
        SplitPart::YTest => "y_test"@,
    }
}

impl SplitPart {
    /// The name under which this part is stored in a split file.
    pub fn name(self) -> (name: String)
        ensures
            name@ == part_name(self),
    {
        match self {
            SplitPart::XTrain => String::from_str("X_train"),
            SplitPart::XTest => String::from_str("X_test"),
            SplitPart::YTrain => String::from_str("y_train"),
            SplitPart::YTest => String::from_str("y_test"),
        }
    }
}

/// Why a split file could not be turned back into a [`TrainTestSplit`].
#[derive(Debug, Clone, Copy, PartialEq, Eq)]
pub enum SplitError {
    /// The file holds no tensor under the name of this part.
    MissingTensor(SplitPart),
}

/// The message that reports a split error.
pub open spec fn error_message(err: SplitError) -> Seq<char> {
    match err {
        SplitError::MissingTensor(part) => "missing tensor `"@ + part_name(part) + "` in split file"@,
    }
}

impl SplitError {
    /// The message that reports this error.
    pub fn message(&self) -> (text: String)
        ensures
            text@ == error_message(*self),
    {
        match self {
            SplitError::MissingTensor(part) => {
                let mut text = String::from_str("missing tensor `");
                let name = part.name();
                text.append(name.as_str());
                text.append("` in split file");
                text
            },
        }
    }
}

/// Named entries, as plain values: each name by its characters.
pub open spec fn entries_view<M>(entries: Seq<(String, M)>) -> Seq<(Seq<char>, M)> {
    entries.map_values(|e: (String, M)| (e.0@, e.1))
}

/// The entries under which a split is stored, in the order in which they are written.
pub open spec fn named_parts<M>(split: TrainTestSplit<M>) -> Seq<(Seq<char>, M)> {
    seq![
        (part_name(SplitPart::XTrain), split.X_train),
        (part_name(SplitPart::XTest), split.X_test),
        (part_name(SplitPart::YTrain), split.y_train),
        (part_name(SplitPart::YTest), split.y_test),
    ]
}

/// The value of the last entry named `name`, if any: a later entry under a name
/// replaces an earlier one.
pub open spec fn last_named<M>(entries: Seq<(Seq<char>, M)>, name: Seq<char>) -> Option<M>
    decreases entries.len(),
{
    if entries.len() == 0 {
        None
    } else {
        match last_named(entries.drop_first(), name) {
            Some(value) => Some(value),
            None => if entries[0].0 == name {
                Some(entries[0].1)
            } else {
                None
            },
        }
    }
}

/// Law: no entry holds no name; appending an entry under `name` makes its value the
/// one found under `name`; appending an entry under another name leaves what is found
/// under `name` unchanged.
pub proof fn lemma_last_entry_wins<M>(entries: Seq<(Seq<char>, M)>, name: Seq<char>, other: Seq<char>, value: M)
    requires
        other != name,
    ensures
        last_named(Seq::<(Seq<char>, M)>::empty(), name) == None::<M>,
        last_named(entries.push((name, value)), name) == Some(value),
        last_named(entries.push((other, value)), name) == last_named(entries, name),
    decreases entries.len(),
{
    if entries.len() > 0 {
        lemma_last_entry_wins(entries.drop_first(), name, other, value);
        assert(entries.push((name, value)).drop_first() =~= entries.drop_first().push((name, value)));
        assert(entries.push((other, value)).drop_first() =~= entries.drop_first().push((other, value)));
    } else {
        assert(entries.push((name, value)).drop_first() =~= entries);
        assert(entries.push((other, value)).drop_first() =~= entries);
    }
}

/// The split that `entries` hold, or the first part (in the order `X_train`, `X_test`,
/// `y_train`, `y_test`) under whose name no entry stands.
pub open spec fn assemble<M>(entries: Seq<(Seq<char>, M)>) -> Result<TrainTestSplit<M>, SplitError> {
    let x_train = last_named(entries, part_name(SplitPart::XTrain));
    let x_test = last_named(entries, part_name(SplitPart::XTest));
    let y_train = last_named(entries, part_name(SplitPart::YTrain));
    let y_test = last_named(entries, part_name(SplitPart::YTest));
    if x_train is None {
        Err(SplitError::MissingTensor(SplitPart::XTrain))
    } else if x_test is None {
        Err(SplitError::MissingTensor(SplitPart::XTest))
    } else if y_train is None {
        Err(SplitError::MissingTensor(SplitPart::YTrain))
    } else if y_test is None {
        Err(SplitError::MissingTensor(SplitPart::YTest))
    } else {
        Ok(
            TrainTestSplit {
                X_train: x_train->0,
                X_test: x_test->0,
                y_train: y_train->0,
                y_test: y_test->0,
            },
        )
    }
}

/// The four parts are stored under four different names.
pub proof fn lemma_part_names_distinct()
    ensures
        part_name(SplitPart::XTrain) != part_name(SplitPart::XTest),
        part_name(SplitPart::XTrain) != part_name(SplitPart::YTrain),
        part_name(SplitPart::XTrain) != part_name(SplitPart::YTest),
        part_name(SplitPart::XTest) != part_name(SplitPart::YTrain),
        part_name(SplitPart::XTest) != part_name(SplitPart::YTest),
        part_name(SplitPart::YTrain) != part_name(SplitPart::YTest),
{
    reveal_strlit("X_train");
    reveal_strlit("X_test");
    reveal_strlit("y_train");
    reveal_strlit("y_test");
    assert(part_name(SplitPart::XTrain)[0] != part_name(SplitPart::YTrain)[0]);
    assert(part_name(SplitPart::XTrain)[0] != part_name(SplitPart::YTest)[0]);
    assert(part_name(SplitPart::XTest)[0] != part_name(SplitPart::YTrain)[0]);
    assert(part_name(SplitPart::XTest)[0] != part_name(SplitPart::YTest)[0]);
    assert(part_name(SplitPart::XTrain).len() != part_name(SplitPart::XTest).len());
    assert(part_name(SplitPart::YTrain).len() != part_name(SplitPart::YTest).len());
}

/// Law: a split rebuilt from the entries it is stored under is the split itself.
pub proof fn lemma_load_after_save<M>(split: TrainTestSplit<M>)
    ensures
        assemble(named_parts(split)) == Ok::<TrainTestSplit<M>, SplitError>(split),
{
    lemma_part_names_distinct();
    let e = named_parts(split);
    let e1 = e.drop_first();
    let e2 = e1.drop_first();
    let e3 = e2.drop_first();
    let e4 = e3.drop_first();
    assert(e4.len() == 0);
    assert(e3 =~= seq![(part_name(SplitPart::YTest), split.y_test)]);
    assert(e2 =~= seq![(part_name(SplitPart::YTrain), split.y_train), (part_name(SplitPart::YTest), split.y_test)]);
    assert(e1[0] == (part_name(SplitPart::XTest), split.X_test));
    reveal_with_fuel(last_named, 5);
}

impl<M> TrainTestSplit<M> {
    /// The named entries that a split file stores for this split.
    pub fn into_named(self) -> (entries: Vec<(String, M)>)
        ensures
            entries_view(entries@) == named_parts(self),
    {
        let mut entries: Vec<(String, M)> = Vec::new();
        entries.push((SplitPart::XTrain.name(), self.X_train));
        entries.push((SplitPart::XTest.name(), self.X_test));
        entries.push((SplitPart::YTrain.name(), self.y_train));
        entries.push((SplitPart::YTest.name(), self.y_test));
        assert(entries_view(entries@) =~= named_parts(self));
        entries
    }

    /// Rebuilds a split from the named entries of a split file.
    pub fn from_named(entries: Vec<(String, M)>) -> (split: Result<Self, SplitError>)
        ensures
            split == assemble(entries_view(entries@)),
    {
        let ghost all = entries_view(entries@);
        let mut rest = entries;
        let mut x_train: Option<M> = None;
        let mut x_test: Option<M> = None;
        let mut y_train: Option<M> = None;
        let mut y_test: Option<M> = None;
        let x_train_name = SplitPart::XTrain.name();
        let x_test_name = SplitPart::XTest.name();
        let y_train_name = SplitPart::YTrain.name();
        let y_test_name = SplitPart::YTest.name();
        while rest.len() > 0
            invariant
                entries_view(rest@) == all.take(rest.len() as int),
                rest.len() <= all.len(),
                x_train_name@ == part_name(SplitPart::XTrain),
                x_test_name@ == part_name(SplitPart::XTest),
                y_train_name@ == part_name(SplitPart::YTrain),
                y_test_name@ == part_name(SplitPart::YTest),
                x_train == last_named(all.skip(rest.len() as int), part_name(SplitPart::XTrain)),
                x_test == last_named(all.skip(rest.len() as int), part_name(SplitPart::XTest)),
                y_train == last_named(all.skip(rest.len() as int), part_name(SplitPart::YTrain)),
                y_test == last_named(all.skip(rest.len() as int), part_name(SplitPart::YTest)),
            decreases rest.len(),
        {
            let ghost k = rest.len() - 1;
            let ghost before = rest@;
            let ghost suffix = all.skip(k as int);
            assert(suffix.drop_first() =~= all.skip(rest.len() as int));
            assert(all[k] == entries_view(before)[k]);
            let (name, value) = rest.pop().unwrap();
            assert(entries_view(rest@) =~= all.take(rest.len() as int));
            assert(suffix[0] == (name@, value));
            proof {
                lemma_part_names_distinct();
            }
            if name == x_train_name {
                if x_train.is_none() {
                    x_train = Some(value);
                }
            } else if name == x_test_name {
                if x_test.is_none() {
                    x_test = Some(value);
                }
            } else if name == y_train_name {
                if y_train.is_none() {
                    y_train = Some(value);
                }
            } else if name == y_test_name {
                if y_test.is_none() {
                    y_test = Some(value);
                }
            }
        }
        assert(all.skip(0) =~= all);
        match (x_train, x_test, y_train, y_test) {
            (None, _, _, _) => Err(SplitError::MissingTensor(SplitPart::XTrain)),
            (Some(_), None, _, _) => Err(SplitError::MissingTensor(SplitPart::XTest)),
            (Some(_), Some(_), None, _) => Err(SplitError::MissingTensor(SplitPart::YTrain)),
            (Some(_), Some(_), Some(_), None) => Err(SplitError::MissingTensor(SplitPart::YTest)),
            (Some(a), Some(b), Some(c), Some(d)) => Ok(TrainTestSplit { X_train: a, X_test: b, y_train: c, y_test: d }),
        }
    }
}

} // verus!
