//! Host data models with validation rules of their own: chat groups and attachments.
use vstd::prelude::*;
use crate::text::{owned, str_eq};

verus! {

/// How the agents of a group take turns.
#[derive(Debug, Clone, Copy, PartialEq, Eq, Structural)]
pub enum CollaborationMode {
    Sequential,
    Free,
}

/// A group of agents talking together.
#[derive(Debug, Clone)]
pub struct Group {
    pub id: String,
    pub name: String,
    pub avatar: String,
    pub agent_ids: Vec<String>,
    pub collaboration_mode: CollaborationMode,
    pub turn_count: u32,
    pub speaking_rules: String,
    pub created_at: String,
}

impl Group {
    /// The rules a group meets: an id, a name of 1 to 50 characters, an avatar, at least
    /// two agents, 1 to 10 turns, and speaking rules of at most 500 characters.
    pub open spec fn valid(&self) -> bool {
        &&& self.id@.len() > 0
        &&& 0 < self.name@.len() <= 50
        &&& self.avatar@.len() > 0
        &&& self.agent_ids@.len() >= 2
        &&& 1 <= self.turn_count <= 10
        &&& self.speaking_rules@.len() <= 500
    }

    /// Checks the group's rules, reporting the first one broken.
    pub fn validate(&self) -> (r: Result<(), String>)
        ensures
            r is Ok <==> self.valid(),
    {
        if self.id.as_str().unicode_len() == 0 {
            return Err(owned("Group ID is required"));
        }
        let name_len = self.name.as_str().unicode_len();
        if name_len == 0 || name_len > 50 {
            return Err(owned("Group name must be 1-50 characters"));
        }
        if self.avatar.as_str().unicode_len() == 0 {
            return Err(owned("Group avatar is required"));
        }
        if self.agent_ids.len() < 2 {
            return Err(owned("Group must have at least 2 agents"));
        }
        if self.turn_count < 1 || self.turn_count > 10 {
            return Err(owned("Group turn_count must be between 1 and 10"));
        }
        if self.speaking_rules.as_str().unicode_len() > 500 {
            return Err(owned("Group speaking_rules must be <= 500 characters"));
        }
        Ok(())
    }
}

/// The kind of an attached file.
#[derive(Debug, Clone, Copy, PartialEq, Eq, Structural)]
pub enum FileType {
    Image,
    Document,
    Pdf,
    Audio,
    Video,
    Other,
}

/// A file attached to a conversation.
#[derive(Debug, Clone)]
pub struct Attachment {
    pub id: String,
    pub filename: String,
    pub file_path: String,
    pub file_type: FileType,
    pub file_size: u64,
    pub created_at: String,
}

/// The lower-case form of `s` as std's `str::to_lowercase` gives it.
pub uninterp spec fn lower_of(s: Seq<char>) -> Seq<char>;

/// Relies on `str::to_lowercase`: the result depends on the characters of `s` alone.
#[verifier::external_body]
fn lowercase(s: &str) -> (r: String)
    ensures
        r@ == lower_of(s@),
{
    s.to_lowercase()
}

/// The last `/`-separated component of `p`.
pub open spec fn last_component(p: Seq<char>) -> Seq<char>
    decreases p.len(),
{
    if p.len() == 0 {
        p
    } else if p.last() == '/' {
        Seq::empty()
    } else {
        last_component(p.drop_last()).push(p.last())
    }
}

/// The text after the last `.` of `name`.
pub open spec fn after_last_dot(name: Seq<char>) -> Seq<char>
    decreases name.len(),
{
    if name.len() == 0 || name.last() == '.' {
        Seq::empty()
    } else {
        after_last_dot(name.drop_last()).push(name.last())
    }
}

/// The extension of file name `name`: the text after its last `.`, when some text
/// precedes that dot and the name is not `..`.
pub open spec fn extension_of(name: Seq<char>) -> Option<Seq<char>> {
    let ext = after_last_dot(name);
    if name.contains('.') && name.len() > ext.len() + 1 && name != ".."@ {
        Some(ext)
    } else {
        None
    }
}

/// The kind of file an extension (already lower case) stands for.
pub open spec fn file_type_of_extension(ext: Seq<char>) -> FileType {
    if ext == "jpg"@ || ext == "jpeg"@ || ext == "png"@ || ext == "gif"@ || ext == "bmp"@ || ext
        == "webp"@ || ext == "svg"@ {
        FileType::Image
    } else if ext == "doc"@ || ext == "docx"@ || ext == "txt"@ || ext == "md"@ || ext == "rtf"@ {
        FileType::Document
    } else if ext == "pdf"@ {
        FileType::Pdf
    } else if ext == "mp3"@ || ext == "wav"@ || ext == "ogg"@ || ext == "flac"@ || ext == "aac"@
        || ext == "m4a"@ {
        FileType::Audio
    } else if ext == "mp4"@ || ext == "avi"@ || ext == "mov"@ || ext == "mkv"@ || ext == "webm"@
        || ext == "flv"@ {
        FileType::Video
    } else {
        FileType::Other
    }
}

/// Index just past the last `c` in `s`, or 0.
fn after_last(s: &str, c: char) -> (r: usize)
    ensures
        r <= s@.len(),
        r == 0 ==> !s@.contains(c),
        r > 0 ==> s@[r - 1] == c,
        forall|j: int| r <= j < s@.len() ==> s@[j] != c,
{
    let n = s.unicode_len();
    let mut i: usize = n;
    while i > 0
        invariant
            n == s@.len(),
            i <= n,
            forall|j: int| i <= j < n ==> s@[j] != c,
        decreases i,
    {
        if s.get_char(i - 1) == c {
            return i;
        }
        i = i - 1;
    }
    i
}

proof fn lemma_tail_after(s: Seq<char>, c: char, r: int)
    requires
        0 <= r <= s.len(),
        r > 0 ==> s[r - 1] == c,
        forall|j: int| r <= j < s.len() ==> s[j] != c,
        c == '/' || c == '.',
    ensures
        c == '/' ==> last_component(s) == s.subrange(r, s.len() as int),
        c == '.' ==> after_last_dot(s) == s.subrange(r, s.len() as int),
    decreases s.len(),
{
    if s.len() > r {
        lemma_tail_after(s.drop_last(), c, r);
        assert(s.subrange(r, s.len() as int) =~= s.drop_last().subrange(r, s.len() - 1).push(s.last()));
    } else {
        if s.len() == 0 {
        } else {
            assert(s.last() == c);
        }
        assert(s.subrange(r, s.len() as int) =~= Seq::<char>::empty());
    }
}

impl Attachment {
    /// The kind of file `filename` names, by its extension in lower case.
    pub fn detect_file_type(filename: &str) -> (r: FileType)
        ensures
            r == match extension_of(last_component(filename@)) {
                Some(ext) => file_type_of_extension(lower_of(ext)),
                None => FileType::Other,
            },
    {
        let n = filename.unicode_len();
        let start = after_last(filename, '/');
        let name = filename.substring_char(start, n);
        proof {
            lemma_tail_after(filename@, '/', start as int);
        }
        let m = name.unicode_len();
        let dot = after_last(name, '.');
        proof {
            lemma_tail_after(name@, '.', dot as int);
            reveal_strlit("..");
        }
        if dot == 0 || dot < 2 || str_eq(name, "..") {
            proof {
                if name@.contains('.') && name@ != ".."@ {
                    assert(dot > 0);
                    assert(name@.len() - (m - dot) <= 1);
                }
            }
            return FileType::Other;
        }
        let ext = lowercase(name.substring_char(dot, m));
        let e = ext.as_str();
        if str_eq(e, "jpg") || str_eq(e, "jpeg") || str_eq(e, "png") || str_eq(e, "gif") || str_eq(e, "bmp")
            || str_eq(e, "webp") || str_eq(e, "svg") {
            FileType::Image
        } else if str_eq(e, "doc") || str_eq(e, "docx") || str_eq(e, "txt") || str_eq(e, "md") || str_eq(e, "rtf") {
            FileType::Document
        } else if str_eq(e, "pdf") {
            FileType::Pdf
        } else if str_eq(e, "mp3") || str_eq(e, "wav") || str_eq(e, "ogg") || str_eq(e, "flac") || str_eq(e, "aac")
            || str_eq(e, "m4a") {
            FileType::Audio
        } else if str_eq(e, "mp4") || str_eq(e, "avi") || str_eq(e, "mov") || str_eq(e, "mkv") || str_eq(e, "webm")
            || str_eq(e, "flv") {
            FileType::Video
        } else {
            FileType::Other
        }
    }
}

} // verus!
