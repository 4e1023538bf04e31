use vstd::prelude::*;

verus! {

/// The kind of change recorded for a path.
#[derive(Debug, Clone, Copy, PartialEq, Eq, Structural)]
pub enum FileEventType {
    Create,
    Modify,
    Delete,
}

/// The lowercase name under which each kind is stored.
pub open spec fn event_type_name(t: FileEventType) -> Seq<char> {
    match t {
        FileEventType::Create => "create"@,
        FileEventType::Modify => "modify"@,
        FileEventType::Delete => "delete"@,
    }
}

/// The kind whose stored name is `s`, if any.
pub open spec fn parse_event_type(s: Seq<char>) -> Option<FileEventType> {
    if s == "create"@ {
        Some(FileEventType::Create)
    } else if s == "modify"@ {
        Some(FileEventType::Modify)
    } else if s == "delete"@ {
        Some(FileEventType::Delete)
    } else {
        None
    }
}

impl FileEventType {
    /// The stored name of this kind.
    pub fn as_str(&self) -> (r: &'static str)
        ensures
            r@ == event_type_name(*self),
    {
        match self {
            FileEventType::Create => "create",
            FileEventType::Modify => "modify",
            FileEventType::Delete => "delete",
        }
    }

    /// Parses a stored name back into a kind; any other text is `None`.
    pub fn from_string(s: &str) -> (r: Option<FileEventType>)
        ensures
            r == parse_event_type(s@),
    {
        let owned = s.to_owned();
        if owned == "create".to_owned() {
            Some(FileEventType::Create)
        } else if owned == "modify".to_owned() {
            Some(FileEventType::Modify)
        } else if owned == "delete".to_owned() {
            Some(FileEventType::Delete)
        } else {
            None
        }
    }
}

/// A normalized change notification for one regular file.
#[derive(Debug, Clone)]
pub struct FileEvent {
    pub path: String,
    pub event_type: FileEventType,
}

/// The kind of a raw notification from the watching backend.
#[derive(Debug, Clone, Copy, PartialEq, Eq, Structural)]
pub enum NotifyKind {
    Any,
    Access,
    Create,
    Modify,
    Remove,
    Other,
}

/// One path named by a raw notification: its text when it is valid UTF-8, and
/// whether it named a regular file when the notification was read.
#[derive(Debug, Clone)]
pub struct NotifyPath {
    pub path: Option<String>,
    pub is_file: bool,
}

/// A raw notification from the watching backend.
#[derive(Debug, Clone)]
pub struct NotifyEvent {
    pub kind: NotifyKind,
    pub paths: Vec<NotifyPath>,
}

/// The change kind a raw notification kind stands for, if any.
pub open spec fn kind_of(k: NotifyKind) -> Option<FileEventType> {
    match k {
        NotifyKind::Create => Some(FileEventType::Create),
        NotifyKind::Modify => Some(FileEventType::Modify),
        NotifyKind::Remove => Some(FileEventType::Delete),
        _ => None,
    }
}

/// The (path, kind) pairs kept from `paths` for a notification of kind `t`:
/// readable paths that name a regular file, or any readable path on delete.
pub open spec fn normalized(t: FileEventType, paths: Seq<NotifyPath>) -> Seq<(Seq<char>, FileEventType)>
    decreases paths.len(),
{
    if paths.len() == 0 {
        Seq::empty()
    } else {
        let rest = normalized(t, paths.drop_last());
        let p = paths.last();
        match p.path {
            Some(s) => if p.is_file || t == FileEventType::Delete {
                rest.push((s@, t))
            } else {
                rest
            },
            None => rest,
        }
    }
}

pub open spec fn event_pair(e: FileEvent) -> (Seq<char>, FileEventType) {
    (e.path@, e.event_type)
}

impl FileEvent {
    /// Turns a raw notification into file events: one per readable path that
    /// names a regular file, or per readable path on delete, where existence
    /// cannot be checked. Access and other notifications give none.
    pub fn from_notify_event(event: NotifyEvent) -> (r: Vec<FileEvent>)
        ensures
            kind_of(event.kind) is None ==> r@.len() == 0,
            kind_of(event.kind) matches Some(t) ==> r@.map_values(|e: FileEvent| event_pair(e))
                == normalized(t, event.paths@),
    {
        let mut out: Vec<FileEvent> = Vec::new();
        let t = match event.kind {
            NotifyKind::Create => FileEventType::Create,
            NotifyKind::Modify => FileEventType::Modify,
            NotifyKind::Remove => FileEventType::Delete,
            _ => {
                return out;
            },
        };
        let mut i: usize = 0;
        while i < event.paths.len()
            invariant
                i <= event.paths@.len(),
                kind_of(event.kind) == Some(t),
                out@.map_values(|e: FileEvent| event_pair(e)) == normalized(
                    t,
                    event.paths@.subrange(0, i as int),
                ),
            decreases event.paths@.len() - i,
        {
            proof {
                assert(event.paths@.subrange(0, i as int + 1).drop_last() =~= event.paths@.subrange(
                    0,
                    i as int,
                ));
            }
            let ghost before = out@;
            let p = &event.paths[i];
            match &p.path {
                Some(s) => {
                    if p.is_file || t == FileEventType::Delete {
                        out.push(FileEvent { path: s.clone(), event_type: t });
                        proof {
                            assert(out@.map_values(|e: FileEvent| event_pair(e)) =~= before.map_values(
                                |e: FileEvent| event_pair(e),
                            ).push((s@, t)));
                        }
                    }
                },
                None => {},
            }
            i += 1;
        }
        proof {
            assert(event.paths@.subrange(0, event.paths@.len() as int) =~= event.paths@);
        }
        out
    }
}

/// One raw change notification accepted into the event log.
///
/// `id` grows with every insertion and breaks ties between equal timestamps.
#[derive(Debug, Clone)]
pub struct ChangeEvent {
    pub id: u64,
    pub path: String,
    pub event_type: FileEventType,
    pub created_at: u64,
    pub processed: bool,
}

impl ChangeEvent {
    /// A field-by-field copy.
    pub fn duplicate(&self) -> (r: ChangeEvent)
        ensures
            r == *self,
    {
        ChangeEvent {
            id: self.id,
            path: self.path.clone(),
            event_type: self.event_type,
            created_at: self.created_at,
            processed: self.processed,
        }
    }
}

} // verus!
