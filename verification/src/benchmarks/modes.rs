//! The modes in which the benchmarks give out work.

use vstd::prelude::*;

use crate::text::same_text;

verus! {

/// How a queue of products is drained.
#[derive(Clone, Copy, Debug, PartialEq, Eq, Structural)]
pub enum QueueMode {
    Serial,
    Threaded,
    Async,
}

impl QueueMode {
    /// The label of a mode.
    pub open spec fn label_text(self) -> Seq<char> {
        match self {
            QueueMode::Serial => "serial"@,
            QueueMode::Threaded => "threaded"@,
            QueueMode::Async => "async"@,
        }
    }

    /// The mode with a label.
    pub fn parse(s: &str) -> (mode: Option<QueueMode>)
        ensures
            match mode {
                Some(m) => s@ == m.label_text(),
                None => forall|m: QueueMode| s@ != #[trigger] m.label_text(),
            },
    {
        if same_text(s, "serial") {
            Some(QueueMode::Serial)
        } else if same_text(s, "threaded") {
            Some(QueueMode::Threaded)
        } else if same_text(s, "async") {
            Some(QueueMode::Async)
        } else {
            None
        }
    }

    /// The label of a mode.
    pub fn label(self) -> (l: &'static str)
        ensures
            l@ == self.label_text(),
    {
        match self {
            QueueMode::Serial => "serial",
            QueueMode::Threaded => "threaded",
            QueueMode::Async => "async",
        }
    }
}

/// Different modes have different labels, so the mode that is parsed from the label of
/// a mode is that mode.
pub proof fn queue_labels_are_distinct(a: QueueMode, b: QueueMode)
    requires
        a.label_text() == b.label_text(),
    ensures
        a == b,
{
    reveal_strlit("serial");
    reveal_strlit("threaded");
    reveal_strlit("async");
    assert("serial"@.len() == 6);
    assert("threaded"@.len() == 8);
    assert("async"@.len() == 5);
}

impl QueueMode {
    /// The number of streams that a mode uses.
    pub open spec fn streams_of(self, streams: int) -> int {
        match self {
            QueueMode::Serial => 1,
            QueueMode::Threaded | QueueMode::Async => streams,
        }
    }

    /// The number of threads that run the tasks of a mode.
    pub open spec fn threads_of(self, threads: int) -> int {
        match self {
            QueueMode::Serial | QueueMode::Threaded => 1,
            QueueMode::Async => if threads >= 1 {
                threads
            } else {
                1
            },
        }
    }

    /// The number of streams that a mode uses.
    pub fn effective_streams(self, streams: usize) -> (n: usize)
        ensures
            n == (if self == QueueMode::Serial {
                1
            } else {
                streams
            }),
            n == self.streams_of(streams as int),
    {
        match self {
            QueueMode::Serial => 1,
            _ => streams,
        }
    }

    /// The number of threads that run the tasks of a mode.
    pub fn effective_threads(self, threads: usize) -> (n: usize)
        ensures
            n == (if self == QueueMode::Async && threads >= 1 {
                threads
            } else {
                1
            }),
            n == self.threads_of(threads as int),
    {
        match self {
            QueueMode::Async => if threads >= 1 {
                threads
            } else {
                1
            },
            _ => 1,
        }
    }
}

/// How a chain of kernels is launched.
#[derive(Clone, Copy, Debug, PartialEq, Eq, Structural)]
pub enum LaunchMode {
    SyncIndividual,
    SyncChained,
    Async,
    Graph,
}

impl LaunchMode {
    /// The label of a mode.
    pub open spec fn label_text(self) -> Seq<char> {
        match self {
            LaunchMode::SyncIndividual => "sync-individual"@,
            LaunchMode::SyncChained => "sync-chained"@,
            LaunchMode::Async => "async"@,
            LaunchMode::Graph => "graph"@,
        }
    }

    /// The mode with a label.
    pub fn parse(s: &str) -> (mode: Option<LaunchMode>)
        ensures
            match mode {
                Some(m) => s@ == m.label_text(),
                None => forall|m: LaunchMode| s@ != #[trigger] m.label_text(),
            },
    {
        if same_text(s, "sync-individual") {
            Some(LaunchMode::SyncIndividual)
        } else if same_text(s, "sync-chained") {
            Some(LaunchMode::SyncChained)
        } else if same_text(s, "async") {
            Some(LaunchMode::Async)
        } else if same_text(s, "graph") {
            Some(LaunchMode::Graph)
        } else {
            None
        }
    }

    /// The label of a mode.
    pub fn label(self) -> (l: &'static str)
        ensures
            l@ == self.label_text(),
    {
        match self {
            LaunchMode::SyncIndividual => "sync-individual",
            LaunchMode::SyncChained => "sync-chained",
            LaunchMode::Async => "async",
            LaunchMode::Graph => "graph",
        }
    }
}

/// Different modes have different labels, so the mode that is parsed from the label of
/// a mode is that mode.
pub proof fn launch_labels_are_distinct(a: LaunchMode, b: LaunchMode)
    requires
        a.label_text() == b.label_text(),
    ensures
        a == b,
{
    reveal_strlit("sync-individual");
    reveal_strlit("sync-chained");
    reveal_strlit("async");
    reveal_strlit("graph");
    assert("sync-individual"@.len() == 15);
    assert("sync-chained"@.len() == 12);
    assert("async"@.len() == 5);
    assert("graph"@.len() == 5);
    assert("async"@[0] == 'a');
    assert("graph"@[0] == 'g');
}

/// How graphs are replayed on streams.
#[derive(Clone, Copy, Debug, PartialEq, Eq, Structural)]
pub enum StreamMode {
    Sync,
    Async,
}

impl StreamMode {
    /// The label of a mode.
    pub open spec fn label_text(self) -> Seq<char> {
        match self {
            StreamMode::Sync => "sync"@,
            StreamMode::Async => "async"@,
        }
    }

    /// The mode with a label.
    pub fn parse(s: &str) -> (mode: Option<StreamMode>)
        ensures
            match mode {
                Some(m) => s@ == m.label_text(),
                None => forall|m: StreamMode| s@ != #[trigger] m.label_text(),
            },
    {
        if same_text(s, "sync") {
            Some(StreamMode::Sync)
        } else if same_text(s, "async") {
            Some(StreamMode::Async)
        } else {
            None
        }
    }

    /// The label of a mode.
    pub fn label(self) -> (l: &'static str)
        ensures
            l@ == self.label_text(),
    {
        match self {
            StreamMode::Sync => "sync",
            StreamMode::Async => "async",
        }
    }
}

/// Different modes have different labels, so the mode that is parsed from the label of
/// a mode is that mode.
pub proof fn stream_labels_are_distinct(a: StreamMode, b: StreamMode)
    requires
        a.label_text() == b.label_text(),
    ensures
        a == b,
{
    reveal_strlit("sync");
    reveal_strlit("async");
    assert("sync"@.len() == 4);
    assert("async"@.len() == 5);
}

/// Each mode is asked for by its name.
pub proof fn modes_have_their_names()
    ensures
        QueueMode::Serial.label_text() == "serial"@,
        QueueMode::Threaded.label_text() == "threaded"@,
        QueueMode::Async.label_text() == "async"@,
        LaunchMode::SyncIndividual.label_text() == "sync-individual"@,
        LaunchMode::SyncChained.label_text() == "sync-chained"@,
        LaunchMode::Async.label_text() == "async"@,
        LaunchMode::Graph.label_text() == "graph"@,
        StreamMode::Sync.label_text() == "sync"@,
        StreamMode::Async.label_text() == "async"@,
{
}
/// A queue that is drained serially uses one stream, and the others as many as asked for. Only
/// the asynchronous one runs its tasks on as many threads as asked for, and no mode on none.
pub proof fn only_some_modes_use_what_is_asked_for(mode: QueueMode, n: int)
    ensures
        mode.label_text() == "serial"@ ==> mode.streams_of(n) == 1,
        mode.label_text() != "serial"@ ==> mode.streams_of(n) == n,
        mode.threads_of(n) >= 1,
        mode.label_text() == "async"@ && n >= 1 ==> mode.threads_of(n) == n,
        mode.label_text() != "async"@ || n < 1 ==> mode.threads_of(n) == 1,
{
    queue_labels_differ(mode);
}

proof fn queue_labels_differ(mode: QueueMode)
    ensures
        mode.label_text() == "serial"@ <==> mode == QueueMode::Serial,
        mode.label_text() == "async"@ <==> mode == QueueMode::Async,
{
    reveal_strlit("serial");
    reveal_strlit("threaded");
    reveal_strlit("async");
    assert("serial"@.len() == 6 && "threaded"@.len() == 8 && "async"@.len() == 5);
}

} // verus!
