use crate::error::ParseError;
use crate::objects::{object_at, SaveObject, SaveObjectModel};
use crate::properties::{
    visibility_of_byte, world_properties_of, SessionVisiblity, WorldProperties, WorldPropertiesModel,
};
use crate::reader::{
    i32_at, i64_at, read_i32, read_i64, read_u32, read_u8, u32_at, u8_at, ByteReader, ByteSource,
};
use crate::strings::{read_string, string_at};
use crate::zlib_reader::{body_at, ChunkedZLibReader};
use vstd::prelude::*;

verus! {

/// A point in time, counted in 100-nanosecond ticks from 0001-01-01T12:00:00 UTC.
#[derive(Clone, Copy, Debug, PartialEq, Eq, Structural)]
pub struct SaveDate {
    pub ticks: i64,
}

/// A save file: its header and the world objects of its compressed body.
pub struct SaveFile {
    pub save_header: i32,
    pub save_version: i32,
    pub build_version: i32,
    pub world_type: String,
    pub world_properties: WorldProperties,
    pub session_name: String,
    /// Time played, in seconds.
    pub play_time: u32,
    pub save_date: SaveDate,
    pub session_visibility: SessionVisiblity,
    pub editor_object_version: i32,
    pub mod_meta_data: String,
    pub is_modded_save: bool,
    pub save_objects: Vec<SaveObject>,
}

/// A `SaveFile` with its strings as character sequences and its objects as models.
pub struct SaveFileModel {
    pub save_header: i32,
    pub save_version: i32,
    pub build_version: i32,
    pub world_type: Seq<char>,
    pub world_properties: WorldPropertiesModel,
    pub session_name: Seq<char>,
    pub play_time: u32,
    pub save_date: SaveDate,
    pub session_visibility: SessionVisiblity,
    pub editor_object_version: i32,
    pub mod_meta_data: Seq<char>,
    pub is_modded_save: bool,
    pub save_objects: Seq<SaveObjectModel>,
}

impl View for SaveFile {
    type V = SaveFileModel;

    open spec fn view(&self) -> SaveFileModel {
        SaveFileModel {
            save_header: self.save_header,
            save_version: self.save_version,
            build_version: self.build_version,
            world_type: self.world_type@,
            world_properties: self.world_properties@,
            session_name: self.session_name@,
            play_time: self.play_time,
            save_date: self.save_date,
            session_visibility: self.session_visibility,
            editor_object_version: self.editor_object_version,
            mod_meta_data: self.mod_meta_data@,
            is_modded_save: self.is_modded_save,
            save_objects: self.save_objects@.map_values(|o: SaveObject| o@),
        }
    }
}

/// Reading `n` objects one after the other.
pub open spec fn objects_at(b: Seq<u8>, stop: ParseError, n: nat) -> Result<(Seq<SaveObjectModel>, Seq<u8>), ParseError>
    decreases n,
{
    if n == 0 {
        Ok((seq![], b))
    } else {
        match objects_at(b, stop, (n - 1) as nat) {
            Err(e) => Err(e),
            Ok((objects, rest)) => match object_at(rest, stop) {
                Err(e) => Err(e),
                Ok((o, rest2)) => Ok((objects.push(o), rest2)),
            },
        }
    }
}

/// Reading the uncompressed header of a save: the header (with no objects yet) and the
/// bytes after it.
pub open spec fn header_at(data: Seq<u8>) -> Result<(SaveFileModel, Seq<u8>), ParseError> {
    let stop = ParseError::UnexpectedEnd;
    match i32_at(data, stop) {
        Err(e) => Err(e),
        Ok((save_header, b1)) => match i32_at(b1, stop) {
            Err(e) => Err(e),
            Ok((save_version, b2)) => match i32_at(b2, stop) {
                Err(e) => Err(e),
                Ok((build_version, b3)) => match string_at(b3, stop) {
                    Err(e) => Err(e),
                    Ok((world_type, b4)) => match string_at(b4, stop) {
                        Err(e) => Err(e),
                        Ok((properties, b5)) => match world_properties_of(properties) {
                            Err(e) => Err(e),
                            Ok(world_properties) => match string_at(b5, stop) {
                                Err(e) => Err(e),
                                Ok((session_name, b6)) => match i32_at(b6, stop) {
                                    Err(e) => Err(e),
                                    Ok((play_time, b7)) => if play_time < 0 {
                                        Err(ParseError::NegativeDuration)
                                    } else {
                                        match i64_at(b7, stop) {
                                            Err(e) => Err(e),
                                            Ok((ticks, b8)) => match u8_at(b8, stop) {
                                                Err(e) => Err(e),
                                                Ok((visibility, b9)) => match visibility_of_byte(
                                                    visibility,
                                                ) {
                                                    None => Err(ParseError::UnknownVisibility),
                                                    Some(session_visibility) => match i32_at(
                                                        b9,
                                                        stop,
                                                    ) {
                                                        Err(e) => Err(e),
                                                        Ok((editor_object_version, b10)) => match string_at(
                                                            b10,
                                                            stop,
                                                        ) {
                                                            Err(e) => Err(e),
                                                            Ok((mod_meta_data, b11)) => match i32_at(
                                                                b11,
                                                                stop,
                                                            ) {
                                                                Err(e) => Err(e),
                                                                Ok((modded, b12)) => Ok(
                                                                    (
                                                                        SaveFileModel {
                                                                            save_header,
                                                                            save_version,
                                                                            build_version,
                                                                            world_type,
                                                                            world_properties,
                                                                            session_name,
                                                                            play_time: play_time as u32,
                                                                            save_date: SaveDate { ticks },
                                                                            session_visibility,
                                                                            editor_object_version,
                                                                            mod_meta_data,
                                                                            is_modded_save: modded != 0,
                                                                            save_objects: seq![],
                                                                        },
                                                                        b12,
                                                                    ),
                                                                ),
                                                            },
                                                        },
                                                    },
                                                },
                                            },
                                        }
                                    },
                                },
                            },
                        },
                    },
                },
            },
        },
    }
}

/// The number of objects that the compressed body of `data` announces, where the parse gets
/// that far.
pub open spec fn world_object_count(data: Seq<u8>) -> Option<u32> {
    match header_at(data) {
        Err(_) => None,
        Ok((_, rest)) => match body_at(rest) {
            Err(_) => None,
            Ok((body, stop)) => match u32_at(body, stop) {
                Err(_) => None,
                Ok((count, _)) => Some(count),
            },
        },
    }
}

/// Reading a whole save: the header, then, from the stream that the compressed body opens
/// to, the object count and that many objects.
pub open spec fn save_file_at(data: Seq<u8>) -> Result<SaveFileModel, ParseError> {
    match header_at(data) {
        Err(e) => Err(e),
        Ok((header, rest)) => match body_at(rest) {
            Err(e) => Err(e),
            Ok((body, stop)) => match u32_at(body, stop) {
                Err(e) => Err(e),
                Ok((count, b)) => match objects_at(b, stop, count as nat) {
                    Err(e) => Err(e),
                    Ok((objects, _)) => Ok(SaveFileModel { save_objects: objects, ..header }),
                },
            },
        },
    }
}

proof fn lemma_objects_at_err(b: Seq<u8>, stop: ParseError, i: nat, n: nat)
    requires
        i <= n,
        objects_at(b, stop, i) is Err,
    ensures
        objects_at(b, stop, n) == objects_at(b, stop, i),
    decreases n - i,
{
    if i < n {
        lemma_objects_at_err(b, stop, i, (n - 1) as nat);
    }
}

proof fn lemma_objects_at_len(b: Seq<u8>, stop: ParseError, n: nat)
    requires
        objects_at(b, stop, n) is Ok,
    ensures
        objects_at(b, stop, n)->Ok_0.0.len() == n,
    decreases n,
{
    if n > 0 {
        lemma_objects_at_len(b, stop, (n - 1) as nat);
    }
}

/// Reads `count` objects.
fn read_objects<S: ByteSource>(file: &mut S, count: u32) -> (r: Result<Vec<SaveObject>, ParseError>)
    requires
        old(file).wf(),
    ensures
        match objects_at(old(file).remaining(), old(file).stop(), count as nat) {
            Ok((objects, _)) => r is Ok && r->Ok_0@.map_values(|o: SaveObject| o@) == objects,
            Err(e) => r is Err && r->Err_0 == e,
        },
{
    let ghost b = file.remaining();
    let ghost stop = file.stop();
    let mut out: Vec<SaveObject> = Vec::new();
    let mut i: u32 = 0;
    assert(out@.map_values(|o: SaveObject| o@) =~= Seq::<SaveObjectModel>::empty());
    while i < count
        invariant
            file.wf(),
            file.stop() == stop,
            b == old(file).remaining(),
            stop == old(file).stop(),
            i <= count,
            objects_at(b, stop, i as nat) == Ok::<(Seq<SaveObjectModel>, Seq<u8>), ParseError>(
                (out@.map_values(|o: SaveObject| o@), file.remaining()),
            ),
        decreases count - i,
    {
        let ghost before = out@.map_values(|o: SaveObject| o@);
        match SaveObject::parse(file) {
            Ok(o) => {
                out.push(o);
                proof {
                    assert(out@.map_values(|o: SaveObject| o@) =~= before.push(o@));
                }
            },
            Err(e) => {
                proof {
                    lemma_objects_at_err(b, stop, (i + 1) as nat, count as nat);
                }
                return Err(e);
            },
        }
        i += 1;
    }
    Ok(out)
}

/// A save that reads successfully holds exactly as many objects as its compressed body
/// announces.
pub proof fn lemma_object_count_kept(data: Seq<u8>)
    requires
        save_file_at(data) is Ok,
    ensures
        world_object_count(data) == Some(save_file_at(data)->Ok_0.save_objects.len() as u32),
{
    let (_, rest) = header_at(data)->Ok_0;
    let (body, stop) = body_at(rest)->Ok_0;
    let (count, b) = u32_at(body, stop)->Ok_0;
    lemma_objects_at_len(b, stop, count as nat);
}

impl SaveFile {
    /// Reads a whole save (see `save_file_at`). Every input gives a save or an error.
    pub fn parse(data: &[u8]) -> (r: Result<SaveFile, ParseError>)
        ensures
            match save_file_at(data@) {
                Ok(m) => r is Ok && r->Ok_0@ == m,
                Err(e) => r is Err && r->Err_0 == e,
            },
            r is Ok ==> world_object_count(data@) == Some(r->Ok_0.save_objects@.len() as u32),
    {
        let mut file = ByteReader::new(data);
        let save_header = read_i32(&mut file)?;
        let save_version = read_i32(&mut file)?;
        let build_version = read_i32(&mut file)?;
        let world_type = read_string(&mut file)?;
        let properties = read_string(&mut file)?;
        let world_properties = WorldProperties::new(properties.as_str())?;
        let session_name = read_string(&mut file)?;
        let play_time = read_i32(&mut file)?;
        if play_time < 0 {
            return Err(ParseError::NegativeDuration);
        }
        let ticks = read_i64(&mut file)?;
        let session_visibility = SessionVisiblity::from_u8(read_u8(&mut file)?)?;
        let editor_object_version = read_i32(&mut file)?;
        let mod_meta_data = read_string(&mut file)?;
        let is_modded_save = read_i32(&mut file)? != 0;
        let ghost rest = file.remaining();
        let mut decoder = ChunkedZLibReader::new(file)?;
        let ghost body = decoder.remaining();
        let ghost stop = decoder.stop();
        let world_object_count = read_u32(&mut decoder)?;
        let save_objects = read_objects(&mut decoder, world_object_count)?;
        let r = Ok(
            SaveFile {
                save_header,
                save_version,
                build_version,
                world_type,
                world_properties,
                session_name,
                play_time: play_time as u32,
                save_date: SaveDate { ticks },
                session_visibility,
                editor_object_version,
                mod_meta_data,
                is_modded_save,
                save_objects,
            },
        );
        proof {
            lemma_object_count_kept(data@);
        }
        r
    }
}

impl Default for SaveFile {
    fn default() -> (r: SaveFile)
        ensures
            r@ == (SaveFileModel {
                save_header: 0,
                save_version: 0,
                build_version: 0,
                world_type: Seq::empty(),
                world_properties: WorldPropertiesModel {
                    start_loc: Seq::empty(),
                    session_name: Seq::empty(),
                    visibility: SessionVisiblity::SvPrivate,
                },
                session_name: Seq::empty(),
                play_time: 0,
                save_date: SaveDate { ticks: 0 },
                session_visibility: SessionVisiblity::SvPrivate,
                editor_object_version: 0,
                mod_meta_data: Seq::empty(),
                is_modded_save: false,
                save_objects: Seq::empty(),
            }),
    {
        let r = SaveFile {
            save_header: 0,
            save_version: 0,
            build_version: 0,
            world_type: String::new(),
            world_properties: WorldProperties::default(),
            session_name: String::new(),
            play_time: 0,
            save_date: SaveDate { ticks: 0 },
            session_visibility: SessionVisiblity::default(),
            editor_object_version: 0,
            mod_meta_data: String::new(),
            is_modded_save: false,
            save_objects: Vec::new(),
        };
        assert(r@.save_objects =~= Seq::<SaveObjectModel>::empty());
        r
    }
}

} // verus!
