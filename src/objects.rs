use crate::error::ParseError;
use crate::reader::{bytes_at, i32_at, le_u32, read_i32, u32_from_le, ByteSource};
use crate::strings::{read_string, string_at};
use vstd::prelude::*;

verus! {

/// Two IEEE-754 single-precision numbers, each kept as its bit pattern
/// (`f32::from_bits` gives the number).
#[derive(Clone, Copy, Debug, PartialEq, Eq, Structural)]
pub struct Vector2 {
    pub x: u32,
    pub y: u32,
}

/// Three IEEE-754 single-precision numbers, each kept as its bit pattern.
#[derive(Clone, Copy, Debug, PartialEq, Eq, Structural)]
pub struct Vector3 {
    pub x: u32,
    pub y: u32,
    pub z: u32,
}

/// Four IEEE-754 single-precision numbers (a rotation quaternion), each kept as its bit pattern.
#[derive(Clone, Copy, Debug, PartialEq, Eq, Structural)]
pub struct Vector4 {
    pub x: u32,
    pub y: u32,
    pub z: u32,
    pub w: u32,
}

/// The little-endian `u32` at `x[4 * i..4 * i + 4]`.
pub open spec fn word_at(x: Seq<u8>, i: int) -> u32 {
    le_u32(x.subrange(4 * i, 4 * i + 4))
}

/// Reading a `Vector2`: eight bytes.
pub open spec fn vector2_at(b: Seq<u8>, stop: ParseError) -> Result<(Vector2, Seq<u8>), ParseError> {
    match bytes_at(b, stop, 8) {
        Ok((x, rest)) => Ok((Vector2 { x: word_at(x, 0), y: word_at(x, 1) }, rest)),
        Err(e) => Err(e),
    }
}

/// Reading a `Vector3`: twelve bytes.
pub open spec fn vector3_at(b: Seq<u8>, stop: ParseError) -> Result<(Vector3, Seq<u8>), ParseError> {
    match bytes_at(b, stop, 12) {
        Ok((x, rest)) => Ok((Vector3 { x: word_at(x, 0), y: word_at(x, 1), z: word_at(x, 2) }, rest)),
        Err(e) => Err(e),
    }
}

/// Reading a `Vector4`: sixteen bytes.
pub open spec fn vector4_at(b: Seq<u8>, stop: ParseError) -> Result<(Vector4, Seq<u8>), ParseError> {
    match bytes_at(b, stop, 16) {
        Ok((x, rest)) => Ok(
            (Vector4 { x: word_at(x, 0), y: word_at(x, 1), z: word_at(x, 2), w: word_at(x, 3) }, rest),
        ),
        Err(e) => Err(e),
    }
}

impl Vector2 {
    /// Reads two little-endian single-precision numbers.
    pub fn parse<S: ByteSource>(file: &mut S) -> (r: Result<Vector2, ParseError>)
        requires
            old(file).wf(),
        ensures
            final(file).wf(),
            r is Ok ==> final(file).stop() == old(file).stop(),
            match vector2_at(old(file).remaining(), old(file).stop()) {
                Ok((v, rest)) => r == Ok::<Vector2, ParseError>(v) && final(file).remaining() == rest,
                Err(e) => r == Err::<Vector2, ParseError>(e),
            },
    {
        let b = file.read_bytes(8)?;
        Ok(Vector2 { x: u32_from_le(b.as_slice(), 0), y: u32_from_le(b.as_slice(), 4) })
    }
}

impl Vector3 {
    /// Reads three little-endian single-precision numbers.
    pub fn parse<S: ByteSource>(file: &mut S) -> (r: Result<Vector3, ParseError>)
        requires
            old(file).wf(),
        ensures
            final(file).wf(),
            r is Ok ==> final(file).stop() == old(file).stop(),
            match vector3_at(old(file).remaining(), old(file).stop()) {
                Ok((v, rest)) => r == Ok::<Vector3, ParseError>(v) && final(file).remaining() == rest,
                Err(e) => r == Err::<Vector3, ParseError>(e),
            },
    {
        let b = file.read_bytes(12)?;
        Ok(
            Vector3 {
                x: u32_from_le(b.as_slice(), 0),
                y: u32_from_le(b.as_slice(), 4),
                z: u32_from_le(b.as_slice(), 8),
            },
        )
    }
}

impl Vector4 {
    /// Reads four little-endian single-precision numbers.
    pub fn parse<S: ByteSource>(file: &mut S) -> (r: Result<Vector4, ParseError>)
        requires
            old(file).wf(),
        ensures
            final(file).wf(),
            r is Ok ==> final(file).stop() == old(file).stop(),
            match vector4_at(old(file).remaining(), old(file).stop()) {
                Ok((v, rest)) => r == Ok::<Vector4, ParseError>(v) && final(file).remaining() == rest,
                Err(e) => r == Err::<Vector4, ParseError>(e),
            },
    {
        let b = file.read_bytes(16)?;
        Ok(
            Vector4 {
                x: u32_from_le(b.as_slice(), 0),
                y: u32_from_le(b.as_slice(), 4),
                z: u32_from_le(b.as_slice(), 8),
                w: u32_from_le(b.as_slice(), 12),
            },
        )
    }
}

/// One persisted world object.
pub enum SaveObject {
    SaveComponent {
        type_path: String,
        root_object: String,
        instance_name: String,
        parent_entity_name: String,
    },
    SaveEntity {
        type_path: String,
        root_object: String,
        instance_name: String,
        need_transform: bool,
        rotation: Vector4,
        position: Vector3,
        scale: Vector3,
        was_placed_in_level: bool,
    },
}

/// A `SaveObject` with its strings as character sequences.
pub enum SaveObjectModel {
    Component {
        type_path: Seq<char>,
        root_object: Seq<char>,
        instance_name: Seq<char>,
        parent_entity_name: Seq<char>,
    },
    Entity {
        type_path: Seq<char>,
        root_object: Seq<char>,
        instance_name: Seq<char>,
        need_transform: bool,
        rotation: Vector4,
        position: Vector3,
        scale: Vector3,
        was_placed_in_level: bool,
    },
}

impl View for SaveObject {
    type V = SaveObjectModel;

    open spec fn view(&self) -> SaveObjectModel {
        match self {
            SaveObject::SaveComponent { type_path, root_object, instance_name, parent_entity_name } =>
                SaveObjectModel::Component {
                type_path: type_path@,
                root_object: root_object@,
                instance_name: instance_name@,
                parent_entity_name: parent_entity_name@,
            },
            SaveObject::SaveEntity {
                type_path,
                root_object,
                instance_name,
                need_transform,
                rotation,
                position,
                scale,
                was_placed_in_level,
            } => SaveObjectModel::Entity {
                type_path: type_path@,
                root_object: root_object@,
                instance_name: instance_name@,
                need_transform: *need_transform,
                rotation: *rotation,
                position: *position,
                scale: *scale,
                was_placed_in_level: *was_placed_in_level,
            },
        }
    }
}

/// Reading `n` length-prefixed strings one after the other.
pub open spec fn strings_at(b: Seq<u8>, stop: ParseError, n: nat) -> Result<(Seq<Seq<char>>, Seq<u8>), ParseError>
    decreases n,
{
    if n == 0 {
        Ok((seq![], b))
    } else {
        match strings_at(b, stop, (n - 1) as nat) {
            Err(e) => Err(e),
            Ok((texts, rest)) => match string_at(rest, stop) {
                Err(e) => Err(e),
                Ok((t, rest2)) => Ok((texts.push(t), rest2)),
            },
        }
    }
}

proof fn lemma_strings_at_err(b: Seq<u8>, stop: ParseError, i: nat, n: nat)
    requires
        i <= n,
        strings_at(b, stop, i) is Err,
    ensures
        strings_at(b, stop, n) == strings_at(b, stop, i),
    decreases n - i,
{
    if i < n {
        lemma_strings_at_err(b, stop, i, (n - 1) as nat);
    }
}

proof fn lemma_strings_at_len(b: Seq<u8>, stop: ParseError, n: nat)
    requires
        strings_at(b, stop, n) is Ok,
    ensures
        strings_at(b, stop, n)->Ok_0.0.len() == n,
    decreases n,
{
    if n > 0 {
        lemma_strings_at_len(b, stop, (n - 1) as nat);
    }
}

/// Reads `n` length-prefixed strings.
fn read_strings<S: ByteSource>(file: &mut S, n: usize) -> (r: Result<Vec<String>, ParseError>)
    requires
        old(file).wf(),
    ensures
        final(file).wf(),
        r is Ok ==> final(file).stop() == old(file).stop(),
        r is Ok ==> r->Ok_0@.len() == n,
        match strings_at(old(file).remaining(), old(file).stop(), n as nat) {
            Ok((texts, rest)) => r is Ok && r->Ok_0@.map_values(|t: String| t@) == texts
                && final(file).remaining() == rest,
            Err(e) => r is Err && r->Err_0 == e,
        },
{
    let ghost b = file.remaining();
    let ghost stop = file.stop();
    let mut out: Vec<String> = Vec::new();
    let mut i: usize = 0;
    assert(out@.map_values(|t: String| t@) =~= Seq::<Seq<char>>::empty());
    while i < n
        invariant
            file.wf(),
            out@.len() == i,
            file.stop() == stop,
            b == old(file).remaining(),
            stop == old(file).stop(),
            i <= n,
            strings_at(b, stop, i as nat) == Ok::<(Seq<Seq<char>>, Seq<u8>), ParseError>(
                (out@.map_values(|t: String| t@), file.remaining()),
            ),
        decreases n - i,
    {
        let ghost before = out@.map_values(|t: String| t@);
        match read_string(file) {
            Ok(t) => {
                out.push(t);
                proof {
                    assert(out@.map_values(|t: String| t@) =~= before.push(t@));
                }
            },
            Err(e) => {
                proof {
                    lemma_strings_at_err(b, stop, (i + 1) as nat, n as nat);
                }
                return Err(e);
            },
        }
        i += 1;
    }
    proof {
        lemma_strings_at_len(b, stop, n as nat);
    }
    Ok(out)
}

/// Reading one object: a tag, then four strings for a component (tag 0), or three strings
/// and a fixed block for an entity (tag 1).
pub open spec fn object_at(b: Seq<u8>, stop: ParseError) -> Result<(SaveObjectModel, Seq<u8>), ParseError> {
    match i32_at(b, stop) {
        Err(e) => Err(e),
        Ok((tag, rest)) => if tag == 0 {
            match strings_at(rest, stop, 4) {
                Err(e) => Err(e),
                Ok((t, rest2)) => Ok(
                    (
                        SaveObjectModel::Component {
                            type_path: t[0],
                            root_object: t[1],
                            instance_name: t[2],
                            parent_entity_name: t[3],
                        },
                        rest2,
                    ),
                ),
            }
        } else if tag == 1 {
            match strings_at(rest, stop, 3) {
                Err(e) => Err(e),
                Ok((t, rest2)) => entity_at(t, rest2, stop),
            }
        } else {
            Err(ParseError::UnknownObjectTag(tag))
        },
    }
}

/// The fixed block of an entity, after its three strings `t`.
pub open spec fn entity_at(t: Seq<Seq<char>>, b: Seq<u8>, stop: ParseError) -> Result<(SaveObjectModel, Seq<u8>), ParseError> {
    match i32_at(b, stop) {
        Err(e) => Err(e),
        Ok((need_transform, b1)) => match vector4_at(b1, stop) {
            Err(e) => Err(e),
            Ok((rotation, b2)) => match vector3_at(b2, stop) {
                Err(e) => Err(e),
                Ok((position, b3)) => match vector3_at(b3, stop) {
                    Err(e) => Err(e),
                    Ok((scale, b4)) => match i32_at(b4, stop) {
                        Err(e) => Err(e),
                        Ok((placed, b5)) => Ok(
                            (
                                SaveObjectModel::Entity {
                                    type_path: t[0],
                                    root_object: t[1],
                                    instance_name: t[2],
                                    need_transform: need_transform == 1,
                                    rotation,
                                    position,
                                    scale,
                                    was_placed_in_level: placed == 1,
                                },
                                b5,
                            ),
                        ),
                    },
                },
            },
        },
    }
}

impl SaveObject {
    /// Reads one object (see `object_at`).
    pub fn parse<S: ByteSource>(file: &mut S) -> (r: Result<SaveObject, ParseError>)
        requires
            old(file).wf(),
        ensures
            final(file).wf(),
            r is Ok ==> final(file).stop() == old(file).stop(),
            match object_at(old(file).remaining(), old(file).stop()) {
                Ok((m, rest)) => r is Ok && r->Ok_0@ == m && final(file).remaining() == rest,
                Err(e) => r is Err && r->Err_0 == e,
            },
    {
        let object_type = read_i32(file)?;
        if object_type == 0 {
            let mut t = read_strings(file, 4)?;
            let ghost tv = t@.map_values(|s: String| s@);
            let parent_entity_name = t.pop().unwrap();
            let instance_name = t.pop().unwrap();
            let root_object = t.pop().unwrap();
            let type_path = t.pop().unwrap();
            proof {
                assert(tv[3] == parent_entity_name@);
            }
            Ok(SaveObject::SaveComponent { type_path, root_object, instance_name, parent_entity_name })
        } else if object_type == 1 {
            let mut t = read_strings(file, 3)?;
            let ghost tv = t@.map_values(|s: String| s@);
            let instance_name = t.pop().unwrap();
            let root_object = t.pop().unwrap();
            let type_path = t.pop().unwrap();
            proof {
                assert(tv[2] == instance_name@);
            }
            let need_transform = read_i32(file)? == 1;
            let rotation = Vector4::parse(file)?;
            let position = Vector3::parse(file)?;
            let scale = Vector3::parse(file)?;
            let was_placed_in_level = read_i32(file)? == 1;
            Ok(
                SaveObject::SaveEntity {
                    type_path,
                    root_object,
                    instance_name,
                    need_transform,
                    rotation,
                    position,
                    scale,
                    was_placed_in_level,
                },
            )
        } else {
            Err(ParseError::UnknownObjectTag(object_type))
        }
    }
}

} // verus!
