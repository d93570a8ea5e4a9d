use vstd::prelude::*;
use crate::error::Error;

verus! {

/// A character allowed in a resource name: `a-z`, `0-9` or `-`.
pub open spec fn is_name_char(c: char) -> bool {
    ('a' <= c && c <= 'z') || ('0' <= c && c <= '9') || c == '-'
}

/// A valid resource name: non-empty, made of name characters only.
pub open spec fn is_valid_name(s: Seq<char>) -> bool {
    s.len() > 0 && forall|i: int| 0 <= i < s.len() ==> is_name_char(#[trigger] s[i])
}

/// The message given for a name that is empty.
pub open spec fn empty_name_reason() -> Seq<char> {
    "cannot be empty"@
}

/// The message given for a name with a character outside `[a-z0-9-]`.
pub open spec fn bad_char_reason() -> Seq<char> {
    "must be lowercase ascii letters, digits, or '-'"@
}

/// What validating `name` for `field` gives: nothing, or the error.
pub open spec fn name_rejected(name: Seq<char>, field: &'static str, r: Result<(), Error>) -> bool {
    match r {
        Ok(_) => false,
        Err(Error::InvalidArgument { field: f, reason }) => {
            &&& f == field
            &&& reason@ == if name.len() == 0 { empty_name_reason() } else { bad_char_reason() }
        },
        Err(_) => false,
    }
}

fn all_name_chars(name: &str) -> (r: bool)
    ensures
        r == forall|i: int| 0 <= i < name@.len() ==> is_name_char(#[trigger] name@[i]),
{
    let mut ok = true;
    for c in it: name.chars()
        invariant
            it.seq() == name@,
            ok == forall|i: int| 0 <= i < it.index() ==> is_name_char(#[trigger] name@[i]),
    {
        ok = ok && (('a' <= c && c <= 'z') || ('0' <= c && c <= '9') || c == '-');
    }
    ok
}

/// Validates `name` against the resource-name format, reporting `field` on failure.
fn validate_pokeapi_name(name: &str, field: &'static str) -> (r: Result<(), Error>)
    ensures
        r is Ok <==> is_valid_name(name@),
        r is Err ==> name_rejected(name@, field, r),
{
    if name.is_empty() {
        return Err(Error::InvalidArgument { field, reason: "cannot be empty".to_owned() });
    }
    if !all_name_chars(name) {
        return Err(
            Error::InvalidArgument {
                field,
                reason: "must be lowercase ascii letters, digits, or '-'".to_owned(),
            },
        );
    }
    Ok(())
}

/// A validated name of a Pokemon, borrowed from the caller.
#[derive(Debug, Clone, Copy, PartialEq, Eq)]
pub struct PokemonName<'a>(&'a str);

impl<'a> View for PokemonName<'a> {
    type V = Seq<char>;

    closed spec fn view(&self) -> Seq<char> {
        self.0@
    }
}

impl<'a> PokemonName<'a> {
    #[verifier::type_invariant]
    spec fn well_formed(self) -> bool {
        is_valid_name(self.0@)
    }

    /// Validates `name`; the result holds it unchanged.
    pub fn new(name: &'a str) -> (r: Result<Self, Error>)
        ensures
            r is Ok <==> is_valid_name(name@),
            r matches Ok(n) ==> n@ == name@,
            r matches Err(e) ==> name_rejected(name@, "pokemon_name", Err(e)),
    {
        match validate_pokeapi_name(name, "pokemon_name") {
            Ok(()) => Ok(PokemonName(name)),
            Err(e) => Err(e),
        }
    }

    pub fn as_str(&self) -> (r: &str)
        ensures
            r@ == self@,
            is_valid_name(r@),
    {
        proof { use_type_invariant(self); }
        self.0
    }
}

/// A validated name of a Generation, borrowed from the caller.
#[derive(Debug, Clone, Copy, PartialEq, Eq)]
pub struct GenerationName<'a>(&'a str);

impl<'a> View for GenerationName<'a> {
    type V = Seq<char>;

    closed spec fn view(&self) -> Seq<char> {
        self.0@
    }
}

impl<'a> GenerationName<'a> {
    #[verifier::type_invariant]
    spec fn well_formed(self) -> bool {
        is_valid_name(self.0@)
    }

    /// Validates `name`; the result holds it unchanged.
    pub fn new(name: &'a str) -> (r: Result<Self, Error>)
        ensures
            r is Ok <==> is_valid_name(name@),
            r matches Ok(n) ==> n@ == name@,
            r matches Err(e) ==> name_rejected(name@, "generation_name", Err(e)),
    {
        match validate_pokeapi_name(name, "generation_name") {
            Ok(()) => Ok(GenerationName(name)),
            Err(e) => Err(e),
        }
    }

    pub fn as_str(&self) -> (r: &str)
        ensures
            r@ == self@,
            is_valid_name(r@),
    {
        proof { use_type_invariant(self); }
        self.0
    }
}

/// The message given when an id and a name are both given, or neither.
pub open spec fn exactly_one_reason() -> Seq<char> {
    "Provide exactly one of `id` or `name`"@
}

/// What choosing a reference from an optional id and an optional raw name
/// gives, for operation `op` whose names are validated for `name_field`.
pub open spec fn reference_choice_error(
    id: Option<u32>,
    name: Option<Seq<char>>,
    op: &'static str,
    name_field: &'static str,
    e: Error,
) -> bool {
    match (id, name) {
        (None, Some(n)) => name_rejected(n, name_field, Err(e)),
        _ => e matches Error::InvalidArgument { field, reason } && field == op && reason@
            == exactly_one_reason(),
    }
}

/// A Pokemon reference: by numeric id or by validated name.
#[derive(Debug, Clone, Copy)]
pub enum PokemonRef<'a> {
    Id(u32),
    Name(PokemonName<'a>),
}

impl<'a> PokemonRef<'a> {
    /// Builds a reference from exactly one of an id and a raw name. The
    /// count is tested before the name is validated.
    pub fn from_id_or_name(id: Option<u32>, name: Option<&'a str>) -> (r: Result<Self, Error>)
        ensures
            r is Ok <==> match (id, name) {
                (Some(_), None) => true,
                (None, Some(n)) => is_valid_name(n@),
                _ => false,
            },
            r matches Ok(PokemonRef::Id(i)) ==> id == Some(i),
            r matches Ok(PokemonRef::Name(n)) ==> name matches Some(raw) && n@ == raw@,
            r matches Err(e) ==> reference_choice_error(
                id,
                match name { Some(n) => Some(n@), None => None },
                "pokemon_get",
                "pokemon_name",
                e,
            ),
    {
        match (id, name) {
            (Some(i), None) => Ok(PokemonRef::Id(i)),
            (None, Some(raw)) => match PokemonName::new(raw) {
                Ok(n) => Ok(PokemonRef::Name(n)),
                Err(e) => Err(e),
            },
            _ => Err(
                Error::InvalidArgument {
                    field: "pokemon_get",
                    reason: "Provide exactly one of `id` or `name`".to_owned(),
                },
            ),
        }
    }
}

/// A Generation reference: by numeric id or by validated name.
#[derive(Debug, Clone, Copy)]
pub enum GenerationRef<'a> {
    Id(u32),
    Name(GenerationName<'a>),
}

impl<'a> GenerationRef<'a> {
    /// Builds a reference from exactly one of an id and a raw name. The
    /// count is tested before the name is validated.
    pub fn from_id_or_name(id: Option<u32>, name: Option<&'a str>) -> (r: Result<Self, Error>)
        ensures
            r is Ok <==> match (id, name) {
                (Some(_), None) => true,
                (None, Some(n)) => is_valid_name(n@),
                _ => false,
            },
            r matches Ok(GenerationRef::Id(i)) ==> id == Some(i),
            r matches Ok(GenerationRef::Name(n)) ==> name matches Some(raw) && n@ == raw@,
            r matches Err(e) ==> reference_choice_error(
                id,
                match name { Some(n) => Some(n@), None => None },
                "generation_get",
                "generation_name",
                e,
            ),
    {
        match (id, name) {
            (Some(i), None) => Ok(GenerationRef::Id(i)),
            (None, Some(raw)) => match GenerationName::new(raw) {
                Ok(n) => Ok(GenerationRef::Name(n)),
                Err(e) => Err(e),
            },
            _ => Err(
                Error::InvalidArgument {
                    field: "generation_get",
                    reason: "Provide exactly one of `id` or `name`".to_owned(),
                },
            ),
        }
    }
}

} // verus!
