//! What the words of the command line stand for: a format of export and
//! import, and a clip named by its place in the history or by its id.

use vstd::prelude::*;
use crate::database::{clip_views, first, Database};
use crate::text::{parse_number, parse_usize};

verus! {

/// A format of export and import.
#[derive(Debug, Clone, Copy, PartialEq, Eq, Structural)]
pub enum Format {
    Json,
    Csv,
    Txt,
}

/// The names of the formats.
pub const JSON: &'static str = "json";

pub const CSV: &'static str = "csv";

pub const TXT: &'static str = "txt";

/// The words of the command line were not understood.
#[derive(Debug)]
pub enum InvalidInput {
    /// No format has this name.
    UnsupportedFormat(String),
    /// The history has no clip at this place, counted from 1.
    InvalidIndex(usize),
}

/// The format that `name` names.
pub fn parse_format(name: &str) -> (r: Result<Format, InvalidInput>)
    ensures
        match r {
            Ok(f) => match f {
                Format::Json => name@ == JSON@,
                Format::Csv => name@ == CSV@ && name@ != JSON@,
                Format::Txt => name@ == TXT@ && name@ != JSON@ && name@ != CSV@,
            },
            Err(e) => {
                &&& name@ != JSON@ && name@ != CSV@ && name@ != TXT@
                &&& e matches InvalidInput::UnsupportedFormat(n)
                &&& n@ == name@
            },
        },
{
    if *name == *JSON {
        Ok(Format::Json)
    } else if *name == *CSV {
        Ok(Format::Csv)
    } else if *name == *TXT {
        Ok(Format::Txt)
    } else {
        Err(InvalidInput::UnsupportedFormat(name.to_owned()))
    }
}

/// The id of the clip that `reference` names.  A number names the clip at
/// that place in the history, the newest clip being at place 1, and is
/// refused where the history has no such place; anything else is taken as
/// the id itself.
pub open spec fn named_clip(db: Database, reference: Seq<char>) -> Result<Seq<char>, nat> {
    match parse_number(reference) {
        Some(n) => if n > usize::MAX {
            Ok(reference)
        } else if 0 < n <= db@.clips.len() {
            Ok(db@.clips[n - 1].id)
        } else {
            Err(n)
        },
        None => Ok(reference),
    }
}

/// The id of the clip that `reference` names.
pub fn resolve_clip(db: &Database, reference: &str) -> (r: Result<String, InvalidInput>)
    ensures
        match r {
            Ok(id) => named_clip(*db, reference@) == Ok::<Seq<char>, nat>(id@),
            Err(e) => {
                &&& e matches InvalidInput::InvalidIndex(n)
                &&& named_clip(*db, reference@) == Err::<Seq<char>, nat>(n as nat)
            },
        },
{
    match parse_usize(reference) {
        None => Ok(reference.to_owned()),
        Some(index) => {
            let clips = db.get_recent_clips(index);
            proof {
                let shown = clip_views(clips@);
                assert(shown == first(db@.clips, index as nat));
                assert(shown.len() == clips@.len());
                if index > 0 && index <= clips.len() {
                    assert(shown[index - 1] == clips[index - 1]@);
                    assert(shown[index - 1] == db@.clips[index - 1]);
                }
            }
            if index > 0 && index <= clips.len() {
                Ok(clips[index - 1].id.clone())
            } else {
                Err(InvalidInput::InvalidIndex(index))
            }
        },
    }
}

} // verus!
