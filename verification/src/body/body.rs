//! The request body: an optional structured value plus the file parts of a
//! multipart upload.

use vstd::prelude::*;

use crate::io::header_data::clone_bytes;
use crate::parser::value::{json_field_of, json_raw_field, spec_leaf_value, JsonValue, SpecJson};
use crate::util::keymap::spec_index_of_key;
use crate::util::strutil::str_eq;

verus! {

/// The mathematical content of one uploaded file.
pub struct SpecFileData {
    pub name: Seq<char>,
    pub filename: Seq<char>,
    pub bytes: Seq<u8>,
    pub content_type: Seq<char>,
}

/// One uploaded file: the field name it arrived under, its file name, its
/// raw bytes, and the content type its part declared.
#[derive(Debug, Clone, PartialEq, Eq)]
pub struct FileData {
    pub name: String,
    pub filename: String,
    pub bytes: Vec<u8>,
    pub content_type: String,
}

impl View for FileData {
    type V = SpecFileData;

    open spec fn view(&self) -> SpecFileData {
        SpecFileData {
            name: self.name@,
            filename: self.filename@,
            bytes: self.bytes@,
            content_type: self.content_type@,
        }
    }
}

impl FileData {
    /// Builds a file entry from its parts.
    pub fn new(name: String, filename: String, bytes: Vec<u8>, content_type: String) -> (r: Self)
        ensures
            r@ == (SpecFileData {
                name: name@,
                filename: filename@,
                bytes: bytes@,
                content_type: content_type@,
            }),
    {
        Self { name, filename, bytes, content_type }
    }

    /// An exact copy.
    pub fn duplicate(&self) -> (r: Self)
        ensures
            r@ == self@,
    {
        FileData {
            name: self.name.clone(),
            filename: self.filename.clone(),
            bytes: clone_bytes(&self.bytes),
            content_type: self.content_type.clone(),
        }
    }
}

/// The views of a list of files.
pub open spec fn fd_views(l: Seq<FileData>) -> Seq<SpecFileData> {
    Seq::new(l.len(), |i: int| l[i]@)
}

/// The mathematical content of a body.
pub struct SpecBodyData {
    pub value: Option<SpecJson>,
    pub files: Seq<SpecFileData>,
}

/// The body of a request: the decoded structured value, if any, and the
/// files of a multipart upload.
pub struct BodyData {
    pub value: Option<JsonValue>,
    pub files: Vec<FileData>,
}

impl View for BodyData {
    type V = SpecBodyData;

    open spec fn view(&self) -> SpecBodyData {
        SpecBodyData {
            value: match &self.value {
                Some(v) => Some(v@),
                None => None,
            },
            files: fd_views(self.files@),
        }
    }
}

/// What looking up one named parameter of a body value returns: the member
/// of an assembled object, the classified member of a decoded object held
/// as text, and nothing from any other shape of value.
pub open spec fn spec_get_param(b: SpecBodyData, k: Seq<char>) -> Option<SpecJson> {
    match b.value {
        None => None,
        Some(SpecJson::Obj(fs)) => match spec_index_of_key(fs, k) {
            Some(i) => Some(spec_leaf_value(fs[i].1)),
            None => None,
        },
        Some(SpecJson::Raw(t)) => json_field_of(t, k),
        Some(_) => None,
    }
}

/// The files uploaded under a field name, in arrival order.
pub open spec fn spec_files_named(files: Seq<SpecFileData>, k: Seq<char>) -> Seq<SpecFileData>
    decreases files.len(),
{
    if files.len() == 0 {
        Seq::empty()
    } else {
        let rest = spec_files_named(files.drop_last(), k);
        if files.last().name == k {
            rest.push(files.last())
        } else {
            rest
        }
    }
}

impl BodyData {
    /// The named parameter of the body value, if the value is an object
    /// that has it.
    pub fn get_param(&self, name: &str) -> (r: Option<JsonValue>)
        ensures
            match r {
                Some(v) => spec_get_param(self@, name@) == Some(v@),
                None => spec_get_param(self@, name@) is None,
            },
    {
        match &self.value {
            None => None,
            Some(JsonValue::Obj(fs)) => {
                let ghost fv = crate::parser::value::field_views(fs@);
                let n = fs.len();
                let mut i: usize = 0;
                while i < n
                    invariant
                        n == fs@.len(),
                        fv == crate::parser::value::field_views(fs@),
                        self@.value == Some(SpecJson::Obj(fv)),
                        i <= n,
                        forall|j: int| 0 <= j < i ==> (#[trigger] fv[j]).0 != name@,
                    decreases n - i,
                {
                    if str_eq(fs[i].0.as_str(), name) {
                        proof {
                            assert(fv[i as int].0 == name@);
                            crate::util::keymap::lemma_index_of_key_witness(fv, name@, i as int);
                            assert(fv[i as int].1 == fs@[i as int].1@);
                            assert(self@.value == Some(SpecJson::Obj(fv)));
                            assert(spec_get_param(self@, name@) == Some(
                                spec_leaf_value(fv[i as int].1),
                            ));
                        }
                        return Some(fs[i].1.to_value());
                    }
                    proof {
                        assert(fv[i as int].0 == fs@[i as int].0@);
                    }
                    i = i + 1;
                }
                proof {
                    crate::util::keymap::lemma_index_of_key_none(fv, name@);
                }
                None
            },
            Some(JsonValue::Raw(t)) => json_raw_field(t.as_str(), name),
            Some(_) => None,
        }
    }

    /// The first file uploaded under `name`.
    pub fn get_file(&self, name: &str) -> (r: Option<FileData>)
        ensures
            match r {
                Some(f) => spec_files_named(self@.files, name@).len() >= 1 && f@
                    == spec_files_named(self@.files, name@)[0],
                None => spec_files_named(self@.files, name@).len() == 0,
            },
    {
        let n = self.files.len();
        let mut i: usize = 0;
        proof {
            assert(fd_views(self.files@).take(0) =~= Seq::<SpecFileData>::empty());
        }
        while i < n
            invariant
                n == self.files@.len(),
                i <= n,
                spec_files_named(fd_views(self.files@).take(i as int), name@) =~= Seq::<
                    SpecFileData,
                >::empty(),
            decreases n - i,
        {
            proof {
                lemma_files_named_take_step(fd_views(self.files@), name@, i as int);
                assert(fd_views(self.files@)[i as int].name == self.files@[i as int].name@);
            }
            if str_eq(self.files[i].name.as_str(), name) {
                proof {
                    lemma_files_named_prefix_first(fd_views(self.files@), name@, i as int);
                }
                return Some(self.files[i].duplicate());
            }
            i = i + 1;
        }
        proof {
            assert(fd_views(self.files@).take(n as int) =~= fd_views(self.files@));
        }
        None
    }

    /// Every file uploaded under `name`, in arrival order; nothing if there
    /// is none.
    pub fn get_files(&self, name: &str) -> (r: Option<Vec<FileData>>)
        ensures
            match r {
                Some(fs) => fd_views(fs@) == spec_files_named(self@.files, name@) && fs@.len()
                    >= 1,
                None => spec_files_named(self@.files, name@).len() == 0,
            },
    {
        let n = self.files.len();
        let mut ret: Vec<FileData> = Vec::new();
        let mut i: usize = 0;
        proof {
            assert(fd_views(self.files@).take(0) =~= Seq::<SpecFileData>::empty());
            assert(fd_views(ret@) =~= spec_files_named(fd_views(self.files@).take(0), name@));
        }
        while i < n
            invariant
                n == self.files@.len(),
                i <= n,
                fd_views(ret@) == spec_files_named(fd_views(self.files@).take(i as int), name@),
            decreases n - i,
        {
            proof {
                lemma_files_named_take_step(fd_views(self.files@), name@, i as int);
            }
            if str_eq(self.files[i].name.as_str(), name) {
                let ghost ret_pre = ret@;
                let f = self.files[i].duplicate();
                ret.push(f);
                proof {
                    assert(fd_views(ret@) =~= fd_views(ret_pre).push(ret@.last()@));
                    assert(fd_views(ret@) =~= spec_files_named(
                        fd_views(self.files@).take(i + 1),
                        name@,
                    ));
                }
            }
            i = i + 1;
        }
        proof {
            assert(fd_views(self.files@).take(n as int) =~= fd_views(self.files@));
        }
        if ret.len() == 0 {
            None
        } else {
            Some(ret)
        }
    }

    /// An exact copy.
    pub fn duplicate(&self) -> (r: BodyData)
        ensures
            r@ == self@,
    {
        let value = match &self.value {
            Some(v) => Some(v.duplicate()),
            None => None,
        };
        let n = self.files.len();
        let mut files: Vec<FileData> = Vec::new();
        let mut i: usize = 0;
        while i < n
            invariant
                n == self.files@.len(),
                i <= n,
                fd_views(files@) == fd_views(self.files@).take(i as int),
            decreases n - i,
        {
            let ghost pre = files@;
            files.push(self.files[i].duplicate());
            i = i + 1;
            proof {
                assert(fd_views(files@) =~= fd_views(pre).push(files@.last()@));
                assert(fd_views(files@) =~= fd_views(self.files@).take(i as int));
            }
        }
        proof {
            assert(fd_views(files@) =~= fd_views(self.files@));
        }
        BodyData { value, files }
    }
}

/// Extending the scanned prefix by one file extends the found list exactly
/// when the file carries the name.
proof fn lemma_files_named_take_step(files: Seq<SpecFileData>, k: Seq<char>, i: int)
    requires
        0 <= i < files.len(),
    ensures
        spec_files_named(files.take(i + 1), k) == if files[i].name == k {
            spec_files_named(files.take(i), k).push(files[i])
        } else {
            spec_files_named(files.take(i), k)
        },
{
    assert(files.take(i + 1).drop_last() =~= files.take(i));
    assert(files.take(i + 1).last() == files[i]);
}

/// Where no earlier file carries the name, the first found file is the one
/// at the scan position.
proof fn lemma_files_named_prefix_first(files: Seq<SpecFileData>, k: Seq<char>, i: int)
    requires
        0 <= i < files.len(),
        spec_files_named(files.take(i), k) =~= Seq::<SpecFileData>::empty(),
        files[i].name == k,
    ensures
        spec_files_named(files, k).len() >= 1,
        spec_files_named(files, k)[0] == files[i],
    decreases files.len(),
{
    if files.len() - 1 == i {
        assert(files.drop_last() =~= files.take(i));
    } else {
        assert(files.drop_last().take(i) =~= files.take(i));
        lemma_files_named_prefix_first(files.drop_last(), k, i);
    }
}

} // verus!
