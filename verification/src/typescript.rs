//! The files that describe an interface to TypeScript users.
use vstd::prelude::*;

verus! {

/// A generated file.
pub struct HostFile {
    pub path: String,
    pub contents: String,
}

/// Why an interface could not be rendered.
pub struct EmitError {
    pub message: String,
}

/// The parts of an interface, rendered.
pub struct Rendered {
    /// The declarations.
    pub declarations: Result<String, EmitError>,
    /// Whether the interface has records or enumerations.
    pub has_shapes: bool,
    /// The run-time checks of records and enumerations.
    pub schemas: Result<String, EmitError>,
    /// The wrapper round the native addon.
    pub wrapper: String,
}

/// The TypeScript emitter; writes `index.d.ts`, `schemas.ts`, and `index.js`
/// at the output root.
pub struct TsEmitter {
    /// Basename of the native addon: the generated `index.js` loads
    /// `./native/<addon>.node`.
    pub addon: String,
}

/// A file as its path and contents.
pub open spec fn file_view(f: HostFile) -> (Seq<char>, Seq<char>) {
    (f.path@, f.contents@)
}

pub open spec fn files_view(v: Seq<HostFile>) -> Seq<(Seq<char>, Seq<char>)> {
    Seq::new(v.len(), |i: int| file_view(v[i]))
}

/// The files of an interface, or the first complaint about it. Only records
/// and enumerations have schemas, so an interface without either gets no file
/// for them.
pub open spec fn emitted(r: Rendered) -> Result<Seq<(Seq<char>, Seq<char>)>, Seq<char>> {
    match r.declarations {
        Err(e) => Err(e.message@),
        Ok(d) => if !r.has_shapes {
            Ok(seq![("index.d.ts"@, d@), ("index.js"@, r.wrapper@)])
        } else {
            match r.schemas {
                Err(e) => Err(e.message@),
                Ok(s) => Ok(
                    seq![("index.d.ts"@, d@), ("schemas.ts"@, s@), ("index.js"@, r.wrapper@)],
                ),
            }
        },
    }
}

pub open spec fn emitted_view(r: Result<Vec<HostFile>, EmitError>) -> Result<
    Seq<(Seq<char>, Seq<char>)>,
    Seq<char>,
> {
    match r {
        Ok(v) => Ok(files_view(v@)),
        Err(e) => Err(e.message@),
    }
}

impl TsEmitter {
    pub fn target(&self) -> (r: &'static str)
        ensures
            r@ == "ts"@,
    {
        "ts"
    }

    pub fn emit(&self, rendered: Rendered) -> (r: Result<Vec<HostFile>, EmitError>)
        ensures
            emitted_view(r) == emitted(rendered),
    {
        let mut files: Vec<HostFile> = Vec::new();
        let ghost all = rendered;
        match rendered.declarations {
            Ok(contents) => files.push(HostFile { path: "index.d.ts".to_owned(), contents }),
            Err(e) => return Err(e),
        }
        if rendered.has_shapes {
            match rendered.schemas {
                Ok(contents) => files.push(HostFile { path: "schemas.ts".to_owned(), contents }),
                Err(e) => return Err(e),
            }
        }
        files.push(HostFile { path: "index.js".to_owned(), contents: rendered.wrapper });
        assert(emitted(all) is Ok && files_view(files@) =~= emitted(all)->Ok_0);
        Ok(files)
    }
}

} // verus!
