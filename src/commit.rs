use crate::codec::{compress, hash, inflated, sha1_of};
use crate::decimal::{decimal, push_decimal};
use crate::hex::{hash_to_path_str, hash_to_str, hex_of, object_path, push_char, HASH_LEN};
use crate::object::{frame_named, framed};
use vstd::prelude::*;
use vstd::utf8::encode_utf8;

verus! {

/// An identity that signs commits: a display name and a contact address.
#[derive(Debug, Clone)]
pub struct User {
    pub name: String,
    pub email: String,
}

/// A snapshot record: the root tree, an optional parent commit (both as
/// hexadecimal hashes), who wrote and who committed it, when, and why.
#[derive(Debug)]
pub struct GitCommit {
    pub tree: String,
    pub parent: Option<String>,
    pub author: User,
    pub committer: User,
    pub timestamp: u64,
    pub timezone: String,
    pub message: String,
}

/// Decimal text of `n` as characters.
pub open spec fn decimal_text(n: nat) -> Seq<char> {
    decimal(n).map_values(|b: u8| b as char)
}

/// A signature line: `<role> <name> <email> <timestamp> <tz> LF`.
pub open spec fn signature_text(role: Seq<char>, u: User, timestamp: u64, tz: Seq<char>) -> Seq<
    char,
> {
    role + " "@ + u.name@ + " "@ + u.email@ + " "@ + decimal_text(timestamp as nat) + " "@ + tz
        + "\n"@
}

impl GitCommit {
    /// The commit's payload as text.
    pub open spec fn text(self) -> Seq<char> {
        "tree "@ + self.tree@ + "\n"@ + match self.parent {
            Some(p) => "parent "@ + p@ + "\n"@,
            None => Seq::empty(),
        } + signature_text("author"@, self.author, self.timestamp, self.timezone@)
            + signature_text("committer"@, self.committer, self.timestamp, self.timezone@) + "\n"@
            + self.message@ + "\n"@
    }

    /// The canonical encoding: a `commit` header, then the UTF-8 payload.
    pub open spec fn encoding(self) -> Seq<u8> {
        framed(encode_utf8("commit"@), encode_utf8(self.text()))
    }

    /// A commit of root tree `tree` on top of `parent`, if any.
    pub fn new(
        tree: String,
        parent: Option<String>,
        author: User,
        committer: User,
        timestamp: u64,
        timezone: String,
        message: String,
    ) -> (r: Self)
        ensures
            r == (GitCommit { tree, parent, author, committer, timestamp, timezone, message }),
    {
        GitCommit { tree, parent, author, committer, timestamp, timezone, message }
    }

    /// Appends a signature line to `s`.
    fn push_signature(&self, s: &mut String, role: &str, u: &User)
        ensures
            final(s)@ == old(s)@ + signature_text(role@, *u, self.timestamp, self.timezone@),
    {
        s.append(role);
        s.append(" ");
        s.append(u.name.as_str());
        s.append(" ");
        s.append(u.email.as_str());
        s.append(" ");
        let mut digits: Vec<u8> = Vec::new();
        push_decimal(&mut digits, self.timestamp);
        assert(digits@ =~= decimal(self.timestamp as nat));
        let ghost start = s@;
        let mut i: usize = 0;
        while i < digits.len()
            invariant
                i <= digits@.len(),
                digits@ == decimal(self.timestamp as nat),
                s@ == start + decimal_text(self.timestamp as nat).take(i as int),
            decreases digits@.len() - i,
        {
            push_char(s, digits[i] as char);
            i = i + 1;
            assert(s@ =~= start + decimal_text(self.timestamp as nat).take(i as int));
        }
        assert(decimal_text(self.timestamp as nat).take(digits@.len() as int) =~= decimal_text(
            self.timestamp as nat,
        ));
        s.append(" ");
        s.append(self.timezone.as_str());
        s.append("\n");
        assert(final(s)@ =~= old(s)@ + signature_text(role@, *u, self.timestamp, self.timezone@));
    }

    /// The commit's payload: tree, parent, author and committer lines, a
    /// blank line, then the message.
    pub fn get_content(&self) -> (r: Vec<u8>)
        ensures
            r@ == encode_utf8(self.text()),
    {
        let mut s = String::from_str("tree ");
        s.append(self.tree.as_str());
        s.append("\n");
        match &self.parent {
            Some(p) => {
                s.append("parent ");
                s.append(p.as_str());
                s.append("\n");
            },
            None => {},
        }
        self.push_signature(&mut s, "author", &self.author);
        self.push_signature(&mut s, "committer", &self.committer);
        s.append("\n");
        s.append(self.message.as_str());
        s.append("\n");
        assert(s@ =~= self.text());
        s.as_str().as_bytes_vec()
    }

    /// The canonical encoding: header, then payload.
    pub fn to_node_content(&self) -> (r: Vec<u8>)
        ensures
            r@ == self.encoding(),
    {
        let content = self.get_content();
        frame_named("commit".as_bytes(), content.as_slice())
    }

    /// The hash of the commit: SHA-1 of its canonical encoding.
    pub fn to_hash(&self) -> (r: Vec<u8>)
        ensures
            r@ == sha1_of(self.encoding()),
            r@.len() == HASH_LEN,
    {
        hash(self.to_node_content().as_slice())
    }

    /// The hash of the commit in hexadecimal.
    pub fn to_hash_str(&self) -> (r: String)
        ensures
            r@ == hex_of(sha1_of(self.encoding())),
    {
        hash_to_str(self.to_hash().as_slice())
    }

    /// Where the commit is stored, derived from its hash.
    pub fn storage_path(&self) -> (r: String)
        ensures
            r@ == object_path(hex_of(sha1_of(self.encoding()))),
    {
        let h = self.to_hash();
        let hex = hash_to_str(h.as_slice());
        hash_to_path_str(hex.as_str())
    }

    /// The bytes kept in the store: the compressed canonical encoding.
    pub fn stored_bytes(&self) -> (r: Vec<u8>)
        ensures
            inflated(r@) == Some(self.encoding()),
    {
        compress(self.to_node_content().as_slice())
    }

    /// The file a write-once store has to create for this commit, given
    /// whether its location holds an object already: none if it does, else
    /// the stored bytes at the commit's location.
    pub fn pending_write(&self, already_stored: bool) -> (r: Option<(String, Vec<u8>)>)
        ensures
            already_stored <==> r is None,
            r matches Some((path, bytes)) ==> path@ == object_path(
                hex_of(sha1_of(self.encoding())),
            ) && inflated(bytes@) == Some(self.encoding()),
    {
        if already_stored {
            None
        } else {
            Some((self.storage_path(), self.stored_bytes()))
        }
    }
}

} // verus!
