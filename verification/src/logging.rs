//! Log message data: severity levels and the message record handed to
//! the log sink. The sink itself lives outside the library.

use vstd::prelude::*;

verus! {

use vstd::string::StringExecFns;

/// Log severity.
#[derive(Clone, Copy, Debug, PartialEq, Eq, Structural)]
pub enum ErrorLevel {
    Debug,
    Info,
    Warn,
    Error,
    Critical,
}

impl ErrorLevel {
    /// The level's name, capitalized.
    pub open spec fn name(self) -> Seq<char> {
        match self {
            ErrorLevel::Debug => "Debug"@,
            ErrorLevel::Info => "Info"@,
            ErrorLevel::Warn => "Warn"@,
            ErrorLevel::Error => "Error"@,
            ErrorLevel::Critical => "Critical"@,
        }
    }

    /// The level's name, uppercased, as message lines carry it.
    pub open spec fn tag(self) -> Seq<char> {
        match self {
            ErrorLevel::Debug => "DEBUG"@,
            ErrorLevel::Info => "INFO"@,
            ErrorLevel::Warn => "WARN"@,
            ErrorLevel::Error => "ERROR"@,
            ErrorLevel::Critical => "CRITICAL"@,
        }
    }

    /// The level's name, capitalized.
    pub fn as_str(&self) -> (r: &'static str)
        ensures
            r@ == self.name(),
    {
        match self {
            ErrorLevel::Debug => "Debug",
            ErrorLevel::Info => "Info",
            ErrorLevel::Warn => "Warn",
            ErrorLevel::Error => "Error",
            ErrorLevel::Critical => "Critical",
        }
    }
}

/// One message bound for the log sink.
pub struct LogMessage {
    /// Severity.
    pub level: ErrorLevel,
    /// The message text.
    pub msg: String,
    /// Attributes shown beside the text, in order.
    pub attributes: Vec<(String, String)>,
}

/// The text of an attribute list: `key=value` pairs, comma-separated.
pub open spec fn attributes_text(attrs: Seq<(Seq<char>, Seq<char>)>) -> Seq<char>
    decreases attrs.len(),
{
    if attrs.len() == 0 {
        Seq::empty()
    } else if attrs.len() == 1 {
        attrs[0].0 + "="@ + attrs[0].1
    } else {
        attributes_text(attrs.drop_last()) + ", "@ + attrs.last().0 + "="@ + attrs.last().1
    }
}

impl LogMessage {
    /// The rendered line: `LEVEL: message`, with ` :: key=value, ...`
    /// appended when there are attributes.
    pub open spec fn rendered(self) -> Seq<char> {
        let head = self.level.tag() + ": "@ + self.msg@;
        if self.attributes@.len() == 0 {
            head
        } else {
            head + " :: "@ + attributes_text(
                self.attributes@.map_values(|a: (String, String)| (a.0@, a.1@)),
            )
        }
    }

    /// Render the message as one line.
    pub fn render(&self) -> (r: String)
        ensures
            r@ == self.rendered(),
    {
        let tag: &str = match self.level {
            ErrorLevel::Debug => "DEBUG",
            ErrorLevel::Info => "INFO",
            ErrorLevel::Warn => "WARN",
            ErrorLevel::Error => "ERROR",
            ErrorLevel::Critical => "CRITICAL",
        };
        let mut r = String::from_str(tag);
        r.append(": ");
        r.append(self.msg.as_str());
        let ghost aview = self.attributes@.map_values(|a: (String, String)| (a.0@, a.1@));
        if self.attributes.len() > 0 {
            r.append(" :: ");
            let mut i: usize = 0;
            let ghost head = self.level.tag() + ": "@ + self.msg@ + " :: "@;
            while i < self.attributes.len()
                invariant
                    i <= self.attributes@.len(),
                    aview == self.attributes@.map_values(|a: (String, String)| (a.0@, a.1@)),
                    aview.len() == self.attributes@.len(),
                    aview.len() > 0,
                    r@ == if i == 0 {
                        head
                    } else {
                        head + attributes_text(aview.take(i as int))
                    },
                decreases self.attributes@.len() - i,
            {
                proof {
                    assert(aview.take(i + 1).drop_last() =~= aview.take(i as int));
                    assert(aview.take(i + 1).last() == aview[i as int]);
                    assert(aview[i as int] == (self.attributes@[i as int].0@,
                    self.attributes@[i as int].1@));
                }
                if i > 0 {
                    r.append(", ");
                }
                r.append(self.attributes[i].0.as_str());
                r.append("=");
                r.append(self.attributes[i].1.as_str());
                proof {
                    if i == 0 {
                        assert(aview.take(1).drop_last() =~= Seq::<(Seq<char>, Seq<char>)>::empty());
                        assert(r@ =~= head + attributes_text(aview.take(1)));
                    } else {
                        assert(r@ =~= head + attributes_text(aview.take(i + 1)));
                    }
                }
                i = i + 1;
            }
            proof {
                assert(aview.take(aview.len() as int) =~= aview);
                assert(r@ =~= self.rendered());
            }
        } else {
            proof {
                assert(r@ =~= self.rendered());
            }
        }
        r
    }
}

} // verus!
