use vstd::prelude::*;

use vstd::std_specs::iter::IteratorSpec;

use crate::errors::ValdidationError;
use crate::ids::{fresh_id, Id};

verus! {

broadcast use vstd::string::group_string_axioms;

/// An actor that can take part in dialogues.  A character has a mandatory
/// display name and can carry a description, a portrait, a general artwork
/// and a background image; the description may be externalized behind
/// `description_link`.
#[derive(Debug, Clone, PartialEq)]
pub struct Character {
    pub id: Id,
    pub display_name: String,
    pub first_name: Option<String>,
    pub last_name: Option<String>,
    pub description: Option<String>,
    pub description_link: Option<Id>,
    pub portrait_link: Option<String>,
    pub artwork_link: Option<String>,
    pub background_link: Option<String>,
}

/// The form a user fills to change a character.
#[derive(Debug, Clone, PartialEq)]
pub struct CharacterForm {
    pub id: String,
    pub display_name: String,
    pub first_name: Option<String>,
    pub last_name: Option<String>,
    pub description: Option<String>,
}

/// Which image slot of a character an upload fills.
#[derive(Debug, Clone, Copy, PartialEq)]
pub enum ImageField {
    Portrait,
    Artwork,
    Background,
}

// ---------------------------------------------------------------------------
// What a valid character name is
// ---------------------------------------------------------------------------

/// The Unicode whitespace characters, as `str::trim` strips them.
pub open spec fn is_name_whitespace(c: char) -> bool {
    let u = c as u32;
    ||| u == 0x9
    ||| u == 0xA
    ||| u == 0xB
    ||| u == 0xC
    ||| u == 0xD
    ||| u == 0x20
    ||| u == 0x85
    ||| u == 0xA0
    ||| u == 0x1680
    ||| (0x2000 <= u && u <= 0x200A)
    ||| u == 0x2028
    ||| u == 0x2029
    ||| u == 0x202F
    ||| u == 0x205F
    ||| u == 0x3000
}

/// The Unicode control characters.
pub open spec fn is_control_char(c: char) -> bool {
    let u = c as u32;
    u < 0x20 || (0x7F <= u && u <= 0x9F)
}

/// Characters reserved by common filesystems.
pub open spec fn is_reserved_name_char(c: char) -> bool {
    c == '<' || c == '>' || c == ':' || c == '"' || c == '|' || c == '?' || c == '*'
}

pub open spec fn is_path_separator(c: char) -> bool {
    c == '/' || c == '\\'
}

/// The name contains two consecutive dots.
pub open spec fn has_dotdot(s: Seq<char>) -> bool {
    exists|i: int| 0 <= i < s.len() - 1 && s[i] == '.' && #[trigger] s[i + 1] == '.'
}

/// How many bytes one character takes in UTF-8.
pub open spec fn utf8_len_of_char(c: char) -> nat {
    let u = c as u32;
    if u < 0x80 {
        1
    } else if u < 0x800 {
        2
    } else if u < 0x10000 {
        3
    } else {
        4
    }
}

/// How many bytes the name takes in UTF-8.
pub open spec fn utf8_len(s: Seq<char>) -> nat
    decreases s.len(),
{
    if s.len() == 0 {
        0
    } else {
        utf8_len(s.drop_last()) + utf8_len_of_char(s.last())
    }
}

/// A valid character name: non-empty, no leading or trailing whitespace, no
/// path separators, no path-traversal dots, no reserved or control
/// characters, and at most 200 bytes of UTF-8.
pub open spec fn valid_character_name(s: Seq<char>) -> bool {
    &&& s.len() > 0
    &&& !is_name_whitespace(s[0])
    &&& !is_name_whitespace(s[s.len() - 1])
    &&& s != seq!['.']
    &&& !has_dotdot(s)
    &&& forall|i: int|
        0 <= i < s.len() ==> !is_path_separator(#[trigger] s[i]) && !is_reserved_name_char(s[i])
            && !is_control_char(s[i])
    &&& utf8_len(s) <= 200
}

// ---------------------------------------------------------------------------
// Executable checks
// ---------------------------------------------------------------------------

/// The characters of a string, in order.
pub(crate) fn chars_of(s: &str) -> (r: Vec<char>)
    ensures
        r@ == s@,
{
    let mut it = s.chars();
    let mut v: Vec<char> = Vec::new();
    loop
        invariant
            it.obeys_prophetic_iter_laws(),
            it.decrease() is Some,
            v@ + it.remaining() =~= s@,
        ensures
            v@ =~= s@,
        decreases it.decrease()->0,
    {
        match it.next() {
            Some(c) => {
                v.push(c);
            },
            None => {
                break ;
            },
        }
    }
    v
}

fn is_ws_char(c: char) -> (b: bool)
    ensures
        b == is_name_whitespace(c),
{
    let u = c as u32;
    u == 0x9 || u == 0xA || u == 0xB || u == 0xC || u == 0xD || u == 0x20 || u == 0x85 || u == 0xA0
        || u == 0x1680 || (0x2000 <= u && u <= 0x200A) || u == 0x2028 || u == 0x2029 || u == 0x202F
        || u == 0x205F || u == 0x3000
}

fn is_bad_char(c: char) -> (b: bool)
    ensures
        b == (is_path_separator(c) || is_reserved_name_char(c) || is_control_char(c)),
{
    let u = c as u32;
    c == '/' || c == '\\' || c == '<' || c == '>' || c == ':' || c == '"' || c == '|' || c == '?'
        || c == '*' || u < 0x20 || (0x7F <= u && u <= 0x9F)
}

fn char_utf8_len(c: char) -> (n: usize)
    ensures
        n == utf8_len_of_char(c),
{
    let u = c as u32;
    if u < 0x80 {
        1
    } else if u < 0x800 {
        2
    } else if u < 0x10000 {
        3
    } else {
        4
    }
}

proof fn lemma_utf8_len_step(s: Seq<char>, i: int)
    requires
        0 <= i < s.len(),
    ensures
        utf8_len(s.take(i + 1)) == utf8_len(s.take(i)) + utf8_len_of_char(s[i]),
{
    assert(s.take(i + 1).drop_last() =~= s.take(i));
    assert(s.take(i + 1).last() == s[i]);
}

proof fn lemma_utf8_len_monotone(s: Seq<char>, i: int)
    requires
        0 <= i <= s.len(),
    ensures
        utf8_len(s.take(i)) <= utf8_len(s),
    decreases s.len() - i,
{
    if i == s.len() {
        assert(s.take(i) =~= s);
    } else {
        lemma_utf8_len_step(s, i);
        lemma_utf8_len_monotone(s, i + 1);
    }
}

fn one_validation_error(key: &'static str, msg: &'static str) -> (r: ValdidationError)
    ensures
        r.err_map@.len() == 1,
{
    let mut err_map: Vec<(&'static str, &'static str)> = Vec::new();
    err_map.push((key, msg));
    ValdidationError::new(err_map)
}

impl Character {
    /// Checks a display name against the naming rules.  Succeeds exactly
    /// when the name is valid: non-empty, not padded with whitespace, free
    /// of path separators, traversal dots, reserved and control characters,
    /// and at most 200 bytes long.
    pub fn validate_name(name: &str) -> (r: Result<(), ValdidationError>)
        ensures
            r is Ok <==> valid_character_name(name@),
            r matches Err(e) ==> e.err_map@.len() == 1,
    {
        let cs = chars_of(name);
        let n = cs.len();
        if n == 0 {
            return Err(one_validation_error("display_name", "Character name cannot be empty"));
        }
        if is_ws_char(cs[0]) || is_ws_char(cs[n - 1]) {
            return Err(
                one_validation_error(
                    "display_name",
                    "Character name cannot have leading or trailing whitespace",
                ),
            );
        }
        if n == 1 && cs[0] == '.' {
            proof {
                assert(name@ =~= seq!['.']);
            }
            return Err(
                one_validation_error(
                    "display_name",
                    "Character name cannot contain path traversal sequences",
                ),
            );
        }
        let mut i: usize = 0;
        while i < n - 1
            invariant
                1 <= n,
                n == cs.len(),
                cs@ == name@,
                i <= n,
                forall|j: int|
                    0 <= j < i && j + 1 < n ==> !(#[trigger] cs@[j] == '.' && cs@[j + 1] == '.'),
            decreases n - i,
        {
            if cs[i] == '.' && cs[i + 1] == '.' {
                return Err(
                    one_validation_error(
                        "display_name",
                        "Character name cannot contain path traversal sequences",
                    ),
                );
            }
            i = i + 1;
        }
        let mut k: usize = 0;
        while k < n
            invariant
                n == cs.len(),
                cs@ == name@,
                k <= n,
                forall|j: int|
                    0 <= j < k ==> !is_path_separator(#[trigger] cs@[j]) && !is_reserved_name_char(
                        cs@[j],
                    ) && !is_control_char(cs@[j]),
            decreases n - k,
        {
            if is_bad_char(cs[k]) {
                return Err(
                    one_validation_error(
                        "display_name",
                        "Character name contains a reserved, control or path character",
                    ),
                );
            }
            k = k + 1;
        }
        let mut bytes: usize = 0;
        let mut m: usize = 0;
        proof {
            assert(name@.take(0) =~= Seq::<char>::empty());
        }
        while m < n
            invariant
                n == cs.len(),
                cs@ == name@,
                m <= n,
                bytes == utf8_len(name@.take(m as int)),
                bytes <= 200,
            decreases n - m,
        {
            proof {
                lemma_utf8_len_step(name@, m as int);
            }
            bytes = bytes + char_utf8_len(cs[m]);
            if bytes > 200 {
                proof {
                    lemma_utf8_len_monotone(name@, m + 1);
                }
                return Err(
                    one_validation_error(
                        "display_name",
                        "Character name cannot exceed 200 characters",
                    ),
                );
            }
            m = m + 1;
        }
        proof {
            assert(name@.take(n as int) =~= name@);
        }
        Ok(())
    }

    /// Builds a fresh character with the given display name and no images
    /// or description yet; fails exactly when the name is invalid.
    pub fn new(display_name: &str) -> (r: Result<Self, ValdidationError>)
        ensures
            r matches Ok(c) ==> {
                &&& valid_character_name(display_name@)
                &&& c.display_name@ == display_name@
                &&& c.first_name is None
                &&& c.last_name is None
                &&& c.description is None
                &&& c.description_link is None
                &&& c.portrait_link is None
                &&& c.artwork_link is None
                &&& c.background_link is None
            },
            r is Err <==> !valid_character_name(display_name@),
    {
        match Character::validate_name(display_name) {
            Ok(()) => {},
            Err(e) => {
                return Err(e);
            },
        }
        Ok(
            Character {
                id: fresh_id(),
                display_name: display_name.to_owned(),
                first_name: None,
                last_name: None,
                description: None,
                description_link: None,
                portrait_link: None,
                artwork_link: None,
                background_link: None,
            },
        )
    }

    pub fn get_id(&self) -> (r: &Id)
        ensures
            *r == self.id,
    {
        &self.id
    }

    pub fn set_description_link(&mut self, description: Id)
        ensures
            final(self).description_link == Some(description),
            final(self).id == old(self).id,
            final(self).display_name == old(self).display_name,
            final(self).first_name == old(self).first_name,
            final(self).last_name == old(self).last_name,
            final(self).description == old(self).description,
            final(self).portrait_link == old(self).portrait_link,
            final(self).artwork_link == old(self).artwork_link,
            final(self).background_link == old(self).background_link,
    {
        self.description_link = Some(description);
    }

    pub fn get_description_link(&self) -> (r: Option<Id>)
        ensures
            r == self.description_link,
    {
        self.description_link
    }

    pub fn set_description(&mut self, description: &str)
        ensures
            final(self).description matches Some(d) && d@ == description@,
            final(self).id == old(self).id,
            final(self).display_name == old(self).display_name,
            final(self).first_name == old(self).first_name,
            final(self).last_name == old(self).last_name,
            final(self).description_link == old(self).description_link,
            final(self).portrait_link == old(self).portrait_link,
            final(self).artwork_link == old(self).artwork_link,
            final(self).background_link == old(self).background_link,
    {
        self.description = Some(description.to_owned());
    }

    pub fn get_name(&self) -> (r: &String)
        ensures
            *r == self.display_name,
    {
        &self.display_name
    }

    /// Takes the editable fields over from the form; everything else —
    /// id, description, links and images — is untouched.
    pub fn change_from_form(&mut self, char_form: &CharacterForm)
        ensures
            final(self).display_name == char_form.display_name,
            final(self).first_name == char_form.first_name,
            final(self).last_name == char_form.last_name,
            final(self).id == old(self).id,
            final(self).description == old(self).description,
            final(self).description_link == old(self).description_link,
            final(self).portrait_link == old(self).portrait_link,
            final(self).artwork_link == old(self).artwork_link,
            final(self).background_link == old(self).background_link,
    {
        self.last_name = clone_opt_string(&char_form.last_name);
        self.display_name = char_form.display_name.clone();
        self.first_name = clone_opt_string(&char_form.first_name);
    }

    /// Records the stored name of an uploaded image in the slot the upload
    /// was for.  The upload itself — copying the file into the project —
    /// happens outside this crate.
    pub fn set_image_link(&mut self, field: ImageField, name: String)
        ensures
            final(self).portrait_link == (if field is Portrait {
                Some(name)
            } else {
                old(self).portrait_link
            }),
            final(self).artwork_link == (if field is Artwork {
                Some(name)
            } else {
                old(self).artwork_link
            }),
            final(self).background_link == (if field is Background {
                Some(name)
            } else {
                old(self).background_link
            }),
            final(self).id == old(self).id,
            final(self).display_name == old(self).display_name,
            final(self).first_name == old(self).first_name,
            final(self).last_name == old(self).last_name,
            final(self).description == old(self).description,
            final(self).description_link == old(self).description_link,
    {
        match field {
            ImageField::Artwork => {
                self.artwork_link = Some(name);
            },
            ImageField::Portrait => {
                self.portrait_link = Some(name);
            },
            ImageField::Background => {
                self.background_link = Some(name);
            },
        }
    }
}

pub(crate) fn clone_opt_string(s: &Option<String>) -> (r: Option<String>)
    ensures
        r == *s,
{
    match s {
        Some(t) => Some(t.clone()),
        None => None,
    }
}

} // verus!
