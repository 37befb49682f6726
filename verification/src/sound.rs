//! Queued playback of alert sounds: the request side. The playback thread
//! (which opens the audio device for each file) belongs to the application.
use vstd::prelude::*;
use vstd::string::*;
use std::sync::Arc;
use std::sync::mpsc::Sender;

verus! {

/// `std::sync::mpsc::Sender` carries playback requests to the playback thread.
#[verifier::external_type_specification]
#[verifier::external_body]
#[verifier::reject_recursive_types(T)]
pub struct ExSender<T>(Sender<T>);

/// `Sender::send`: hands `path` to the receiving thread. It fails only when
/// the receiver is gone, and then hands `path` back unsent. Whether the
/// receiver is still there depends on the other thread, so which of the two
/// comes back is not promised.
#[verifier::external_body]
fn send_path(sender: &Sender<String>, path: String) -> (r: Result<(), String>)
    ensures
        r matches Err(back) ==> back == path,
{
    match sender.send(path) {
        Ok(()) => Ok(()),
        Err(e) => Err(e.0),
    }
}

/// The playback request for a path: none for an empty path, which is
/// ignored; otherwise the path itself.
pub fn playback_request(file_path: &str) -> (r: Option<String>)
    ensures
        r is None <==> file_path@.len() == 0,
        r matches Some(p) ==> p@ == file_path@,
{
    if file_path.is_empty() {
        None
    } else {
        Some(String::from_str(file_path))
    }
}

/// AudioManager that queues audio playback requests and plays them
/// sequentially on a dedicated thread.
pub struct AudioManager {
    sender: Sender<String>,
}

impl AudioManager {
    /// The channel end that playback requests are sent to.
    pub closed spec fn request_channel(&self) -> Sender<String> {
        self.sender
    }

    /// A manager whose requests go to the playback thread behind `sender`.
    pub fn from_sender(sender: Sender<String>) -> (r: Self)
        ensures
            r.request_channel() == sender,
    {
        AudioManager { sender }
    }

    /// Queue an audio file for sequential playback (non-blocking): hands
    /// the playback request for `file_path` to the playback thread. An empty
    /// path is ignored (`Ok(false)`); `Ok(true)` when the request was handed
    /// over; when the playback thread is gone, the request comes back unsent
    /// as `Err`, and it is `file_path` itself.
    pub fn queue_file(&self, file_path: &str) -> (r: Result<bool, String>)
        ensures
            r == Ok::<bool, String>(false) <==> file_path@.len() == 0,
            r matches Err(back) ==> back@ == file_path@ && file_path@.len() > 0,
    {
        match playback_request(file_path) {
            None => Ok(false),
            Some(request) => match send_path(&self.sender, request) {
                Ok(()) => Ok(true),
                Err(back) => Err(back),
            },
        }
    }
}

/// A shared audio manager.
pub type AudioController = Arc<AudioManager>;

} // verus!
