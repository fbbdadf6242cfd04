use vstd::prelude::*;

verus! {

/// How serious a reported problem is, from least to most.
#[derive(Debug, Clone, Copy, PartialEq, Eq, Structural)]
pub enum Severity {
    Debug,
    Info,
    Warning,
    Fatal,
}

/// An error with a severity, a message and, optionally, the error that caused it.
#[derive(Debug)]
pub struct FFError {
    severity: Severity,
    msg: String,
    parent: Option<Box<FFError>>,
}

/// The result of an operation that can fail with an `FFError`.
pub type FFResult<T> = Result<T, FFError>;

impl FFError {
    /// The error's severity.
    pub closed spec fn severity(&self) -> Severity {
        self.severity
    }

    /// The error's message.
    pub closed spec fn msg(&self) -> Seq<char> {
        self.msg@
    }

    /// The error that caused this one, if any.
    pub closed spec fn parent(&self) -> Option<FFError> {
        match self.parent {
            Some(p) => Some(*p),
            None => None,
        }
    }

    /// An error with the given severity and message and no cause.
    pub fn build(severity: Severity, msg: String) -> (e: FFError)
        ensures
            e.severity() == severity,
            e.msg() == msg@,
            e.parent() is None,
    {
        FFError { severity, msg, parent: None }
    }

    /// This error, caused by `parent`.
    pub fn with_parent(self, parent: FFError) -> (e: FFError)
        ensures
            e.severity() == self.severity(),
            e.msg() == self.msg(),
            e.parent() == Some(parent),
    {
        FFError { severity: self.severity, msg: self.msg, parent: Some(Box::new(parent)) }
    }

    /// The error's severity.
    pub fn get_severity(&self) -> (s: Severity)
        ensures
            s == self.severity(),
    {
        self.severity
    }

    /// The error's message.
    pub fn get_msg(&self) -> (m: &str)
        ensures
            m@ == self.msg(),
    {
        self.msg.as_str()
    }

    /// The error that caused this one, if any.
    pub fn get_parent(&self) -> (p: Option<&FFError>)
        ensures
            match p {
                Some(q) => self.parent() == Some(*q),
                None => self.parent() is None,
            },
    {
        match &self.parent {
            Some(b) => Some(&**b),
            None => None,
        }
    }
}

} // verus!
