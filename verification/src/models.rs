//! The records exchanged between devices and shown to the user.

use vstd::prelude::*;

verus! {

/// A nearby device found on the local network.
pub struct Peer {
    pub id: String,
    pub name: String,
    pub address: String,
    pub port: u16,
    pub trusted: bool,
}

impl Clone for Peer {
    fn clone(&self) -> (r: Self)
        ensures
            r == *self,
    {
        Peer {
            id: self.id.clone(),
            name: self.name.clone(),
            address: self.address.clone(),
            port: self.port,
            trusted: self.trusted,
        }
    }
}

/// A file announced in an offer.
pub struct FileMeta {
    pub name: String,
    pub size: u64,
}

impl Clone for FileMeta {
    fn clone(&self) -> (r: Self)
        ensures
            r == *self,
    {
        FileMeta { name: self.name.clone(), size: self.size }
    }
}

/// A text announced in an offer: its first characters and its size in bytes.
pub struct TextMeta {
    pub preview: String,
    pub size: usize,
}

impl Clone for TextMeta {
    fn clone(&self) -> (r: Self)
        ensures
            r == *self,
    {
        TextMeta { preview: self.preview.clone(), size: self.size }
    }
}

/// A file picked by the user for sending.
pub struct SelectedFile {
    pub path: String,
    pub name: String,
}

impl Clone for SelectedFile {
    fn clone(&self) -> (r: Self)
        ensures
            r == *self,
    {
        SelectedFile { path: self.path.clone(), name: self.name.clone() }
    }
}

/// A transfer offered by a sender: files, or a text.
pub struct Offer {
    pub id: String,
    pub sender_id: String,
    pub sender_name: String,
    pub files: Vec<FileMeta>,
    pub text: Option<TextMeta>,
}

/// An offer as a mathematical value.
pub struct OfferView {
    pub id: Seq<char>,
    pub sender_id: Seq<char>,
    pub sender_name: Seq<char>,
    pub files: Seq<FileMeta>,
    pub text: Option<TextMeta>,
}

impl View for Offer {
    type V = OfferView;

    open spec fn view(&self) -> OfferView {
        OfferView {
            id: self.id@,
            sender_id: self.sender_id@,
            sender_name: self.sender_name@,
            files: self.files@,
            text: self.text,
        }
    }
}

impl Clone for Offer {
    fn clone(&self) -> (r: Self)
        ensures
            r@ == self@,
    {
        let files = self.files.clone();
        assert(files@ =~= self.files@);
        let text = match &self.text {
            Some(t) => Some(t.clone()),
            None => None,
        };
        Offer {
            id: self.id.clone(),
            sender_id: self.sender_id.clone(),
            sender_name: self.sender_name.clone(),
            files,
            text,
        }
    }
}

/// What the user interface shows.
pub struct AppSnapshot {
    pub device_id: String,
    pub device_name: String,
    pub inbox: String,
    pub peers: Vec<Peer>,
    pub incoming: Vec<Offer>,
    pub auto_open_links: bool,
}

/// A file shared to the application by another Android app.
pub struct SharedFile {
    pub path: String,
    pub name: String,
}

/// What another Android app shared with this one.
pub struct SharedContent {
    pub files: Vec<SharedFile>,
    pub text: Option<String>,
}

} // verus!
