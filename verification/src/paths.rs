//! The names of the files that a download writes.
use crate::parsing::{File, FileTypes, TorrInfo};
use crate::text;
use vstd::prelude::*;

verus! {

/// The texts that a list of strings holds.
pub open spec fn texts_of(strings: Seq<String>) -> Seq<Seq<char>> {
    strings.map_values(|s: String| s@)
}

/// The parts of a text between separators.
pub open spec fn split(text: Seq<char>, separator: char) -> Seq<Seq<char>>
    decreases text.len(),
{
    if text.len() == 0 {
        seq![Seq::empty()]
    } else {
        let before = split(text.drop_last(), separator);
        if text.last() == separator {
            before.push(Seq::empty())
        } else {
            before.drop_last().push(before.last().push(text.last()))
        }
    }
}

/// Parts of a text with separators between them.
pub open spec fn join(parts: Seq<Seq<char>>, separator: char) -> Seq<char>
    decreases parts.len(),
{
    if parts.len() == 0 {
        Seq::empty()
    } else if parts.len() == 1 {
        parts[0]
    } else {
        join(parts.drop_last(), separator).push(separator) + parts.last()
    }
}

/// A text is never split into nothing.
proof fn split_is_not_empty(text: Seq<char>, separator: char)
    ensures
        split(text, separator).len() > 0,
    decreases text.len(),
{
    if text.len() > 0 {
        split_is_not_empty(text.drop_last(), separator);
    }
}

/// A text that is split and joined again is the same text, and no part holds a separator.
pub proof fn split_texts_join_again(text: Seq<char>, separator: char)
    ensures
        join(split(text, separator), separator) == text,
        forall|i: int|
            0 <= i < split(text, separator).len() ==> !(#[trigger] split(
                text,
                separator,
            )[i]).contains(separator),
    decreases text.len(),
{
    let parts = split(text, separator);
    if text.len() == 0 {
        assert(parts.len() == 1);
    } else {
        let front = text.drop_last();
        let before = split(front, separator);
        split_texts_join_again(front, separator);
        split_is_not_empty(front, separator);
        if text.last() == separator {
            assert(parts.drop_last() =~= before);
            assert(join(parts, separator) =~= text);
        } else {
            let last = before.last().push(text.last());
            assert(!before[before.len() - 1].contains(separator));
            assert(parts.drop_last() =~= before.drop_last());
            assert(forall|i: int| 0 <= i < last.len() ==> last[i] != separator) by {
                assert forall|i: int| 0 <= i < last.len() implies last[i] != separator by {
                    if i < before.last().len() && last[i] == separator {
                        assert(before.last()[i] == separator);
                    }
                }
            }
            assert forall|i: int| 0 <= i < parts.len() implies !(
            #[trigger] parts[i]).contains(separator) by {
                if i < parts.len() - 1 {
                    assert(parts[i] == before[i]);
                }
            }
            assert(text =~= front.push(text.last()));
            if before.len() == 1 {
                assert(parts.len() == 1);
                assert(parts[0] == last);
                assert(front == before[0]);
            } else {
                let head = join(before.drop_last(), separator).push(separator);
                assert(front == head + before.last());
                assert(join(parts, separator) == head + last);
                assert(head + last =~= text);
            }
        }
    }
}

/// Splits a text at its separators.
pub fn split_text(text: &str, separator: char) -> (parts: Vec<String>)
    ensures
        texts_of(parts@) == split(text@, separator),
{
    let mut parts: Vec<String> = Vec::new();
    let mut current = String::new();
    let count: usize = text.unicode_len();
    let mut i: usize = 0;
    assert(text@.take(0) =~= Seq::<char>::empty());
    assert(texts_of(parts@).push(current@) =~= seq![Seq::<char>::empty()]);
    while i < count
        invariant
            i <= count,
            count == text@.len(),
            texts_of(parts@).push(current@) =~= split(text@.take(i as int), separator),
        decreases count - i,
    {
        let ghost before = texts_of(parts@).push(current@);
        let c = text.get_char(i);
        assert(text@.take(i + 1).drop_last() =~= text@.take(i as int));
        assert(before.drop_last() =~= texts_of(parts@));
        if c == separator {
            parts.push(current);
            current = String::new();
            assert(texts_of(parts@) =~= before);
        } else {
            current.push(c);
        }
        i = i + 1;
    }
    let ghost before = texts_of(parts@).push(current@);
    parts.push(current);
    assert(text@.take(i as int) =~= text@);
    assert(texts_of(parts@) =~= before);
    parts
}

/// Joins texts, with separators between them.
pub fn join_texts(parts: &Vec<String>, separator: char) -> (text: String)
    ensures
        text@ == join(texts_of(parts@), separator),
{
    let ghost texts = texts_of(parts@);
    let mut text = String::new();
    let mut i: usize = 0;
    assert(texts.take(0) =~= Seq::<Seq<char>>::empty());
    while i < parts.len()
        invariant
            i <= parts@.len(),
            texts == texts_of(parts@),
            text@ == join(texts.take(i as int), separator),
        decreases parts@.len() - i,
    {
        assert(texts.take(i + 1).drop_last() =~= texts.take(i as int));
        if i > 0 {
            text.push(separator);
        }
        text.append(parts[i].as_str());
        assert(text@ =~= join(texts.take(i + 1), separator));
        i = i + 1;
    }
    assert(texts.take(i as int) =~= texts);
    text
}

/// The length and the path of a file.
#[verifier::ext_equal]
pub struct FileModel {
    /// The number of bytes.
    pub length: nat,
    /// The directories that lead to the file, then its name.
    pub path: Seq<Seq<char>>,
}

impl View for File {
    type V = FileModel;

    open spec fn view(&self) -> FileModel {
        FileModel { length: self.length as nat, path: texts_of(self.path@) }
    }
}

/// The lengths and paths of files.
pub open spec fn models_of(files: Seq<File>) -> Seq<FileModel> {
    files.map_values(|file: File| file@)
}

impl TorrInfo {
    /// The directory for the files: the given one, or else `out` for a single file, and for several
    /// the name that the torrent gives.
    pub open spec fn directory(self, given: Option<Seq<char>>) -> Seq<char> {
        match given {
            Some(directory) => directory,
            None => match self.torr_type {
                FileTypes::SingleFile { .. } => "out"@,
                FileTypes::MultiFile { .. } => self.name@,
            },
        }
    }

    /// The files with their paths inside the directory. A single file has the name of the torrent,
    /// split at the separators.
    pub open spec fn file_models(self, separator: char) -> Seq<FileModel> {
        match self.torr_type {
            FileTypes::SingleFile { length, .. } => seq![
                FileModel { length: length as nat, path: split(self.name@, separator) },
            ],
            FileTypes::MultiFile { files } => models_of(files@),
        }
    }

    /// The directory for the files of the torrent.
    pub fn output_directory(&self, given: &Option<String>) -> (directory: String)
        ensures
            directory@ == self.directory(text::text_of(*given)),
    {
        match given {
            Some(directory) => directory.clone(),
            None => match &self.torr_type {
                FileTypes::SingleFile { .. } => "out".to_owned(),
                FileTypes::MultiFile { .. } => self.name.clone(),
            },
        }
    }

    /// The files of the torrent, each with its path inside `directory`.
    pub fn files_in(&self, directory: &String, separator: char) -> (files: Vec<File>)
        ensures
            models_of(files@) == under(directory@, self.file_models(separator)),
    {
        match &self.torr_type {
            FileTypes::SingleFile { length, .. } => {
                let path = split_text(self.name.as_str(), separator);
                let file = File { length: *length, path: prefixed(directory, &path) };
                let mut files: Vec<File> = Vec::new();
                files.push(file);
                assert(models_of(files@) =~= under(directory@, self.file_models(separator)));
                files
            },
            FileTypes::MultiFile { files } => {
                let mut found: Vec<File> = Vec::new();
                let mut i: usize = 0;
                while i < files.len()
                    invariant
                        i <= files@.len(),
                        models_of(found@) =~= under(directory@, models_of(files@).take(i as int)),
                    decreases files@.len() - i,
                {
                    let ghost before = models_of(found@);
                    let path = prefixed(directory, &files[i].path);
                    let file = File { length: files[i].length, path };
                    let ghost model = file@;
                    found.push(file);
                    assert(models_of(found@) =~= before.push(model));
                    assert(models_of(files@).take(i + 1) =~= models_of(files@).take(i as int).push(
                        files@[i as int]@,
                    ));
                    i = i + 1;
                }
                assert(models_of(files@).take(i as int) =~= models_of(files@));
                found
            },
        }
    }
}

/// Files whose paths start with a directory.
pub open spec fn under(directory: Seq<char>, files: Seq<FileModel>) -> Seq<FileModel> {
    files.map_values(
        |file: FileModel| FileModel { length: file.length, path: seq![directory] + file.path },
    )
}

/// A path that starts with a directory.
fn prefixed(directory: &String, path: &Vec<String>) -> (longer: Vec<String>)
    ensures
        texts_of(longer@) == seq![directory@] + texts_of(path@),
{
    let mut longer: Vec<String> = Vec::new();
    longer.push(directory.clone());
    let mut i: usize = 0;
    while i < path.len()
        invariant
            i <= path@.len(),
            texts_of(longer@) =~= seq![directory@] + texts_of(path@).take(i as int),
        decreases path@.len() - i,
    {
        let ghost before = texts_of(longer@);
        longer.push(path[i].clone());
        assert(texts_of(longer@) =~= before.push(path@[i as int]@));
        assert(texts_of(path@).take(i + 1) =~= texts_of(path@).take(i as int).push(
            path@[i as int]@,
        ));
        i = i + 1;
    }
    assert(texts_of(path@).take(i as int) =~= texts_of(path@));
    longer
}

/// The name under which a file is opened: its path, with separators.
pub fn file_name(file: &File, separator: char) -> (name: String)
    ensures
        name@ == join(file@.path, separator),
{
    join_texts(&file.path, separator)
}

/// A part more is put at the end, after a separator where it is not the first.
pub proof fn joining_separates(parts: Seq<Seq<char>>, part: Seq<char>, separator: char)
    ensures
        join(Seq::empty(), separator) == Seq::<char>::empty(),
        join(seq![part], separator) == part,
        parts.len() > 0 ==> join(parts.push(part), separator) == join(parts, separator) + seq![
            separator,
        ] + part,
{
    if parts.len() > 0 {
        assert(parts.push(part).drop_last() =~= parts);
        assert(join(parts, separator).push(separator) =~= join(parts, separator) + seq![separator]);
    }
}

/// The files lie in the directory that is given, if one is. A single file has the name of the
/// torrent, and else lies in `out`; several have the paths that the torrent gives them, and else lie
/// in a directory with the name of the torrent. All have the lengths that the torrent gives them.
pub proof fn files_are_named_by_the_torrent(info: TorrInfo, given: Option<Seq<char>>, separator: char)
    ensures
        ({
            let directory = info.directory(given);
            let files = under(directory, info.file_models(separator));
            &&& given is Some ==> directory == given->0
            &&& forall|i: int|
                0 <= i < files.len() ==> {
                    &&& (#[trigger] files[i]).path.len() > 0
                    &&& files[i].path[0] == directory
                }
            &&& match info.torr_type {
                FileTypes::SingleFile { length, .. } => {
                    &&& given is None ==> directory == "out"@
                    &&& files.len() == 1
                    &&& files[0].length == length
                    &&& join(files[0].path.skip(1), separator) == info.name@
                },
                FileTypes::MultiFile { files: listed } => {
                    &&& given is None ==> directory == info.name@
                    &&& files.len() == listed@.len()
                    &&& forall|i: int|
                        0 <= i < files.len() ==> {
                            &&& (#[trigger] files[i]).length == listed@[i].length
                            &&& files[i].path.len() == listed@[i].path@.len() + 1
                            &&& forall|k: int|
                                0 <= k < listed@[i].path@.len() ==> #[trigger] files[i].path[k + 1]
                                    == listed@[i].path@[k]@
                        }
                },
            }
        }),
{
    let directory = info.directory(given);
    let models = info.file_models(separator);
    let files = under(directory, models);
    assert forall|i: int| 0 <= i < files.len() implies (#[trigger] files[i]).path == seq![directory]
        + models[i].path by {}
    match info.torr_type {
        FileTypes::SingleFile { .. } => {
            split_texts_join_again(info.name@, separator);
            assert(files[0].path.skip(1) =~= split(info.name@, separator));
        },
        FileTypes::MultiFile { files: listed } => {
            assert forall|i: int| 0 <= i < files.len() implies (#[trigger] files[i]).length
                == listed@[i].length && files[i].path == seq![directory] + texts_of(
                listed@[i].path@,
            ) by {
                assert(models[i] == listed@[i]@);
            }
        },
    }
}

} // verus!
