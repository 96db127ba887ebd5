use vstd::prelude::*;

verus! {

/// The answer of a node to a request to store transactions.
#[derive(Clone, Debug, Default)]
pub struct StoreTransactionsResponse {
    error: Option<String>,
    exception: Option<String>,
}

impl StoreTransactionsResponse {
    pub closed spec fn error_spec(&self) -> Option<String> {
        self.error
    }

    pub closed spec fn exception_spec(&self) -> Option<String> {
        self.exception
    }

    /// A response with the given error and exception.
    pub fn new(error: Option<String>, exception: Option<String>) -> (r: Self)
        ensures
            r.error_spec() == error,
            r.exception_spec() == exception,
    {
        StoreTransactionsResponse { error, exception }
    }

    /// The error that occurred, if any.
    pub fn error(&self) -> (r: &Option<String>)
        ensures
            *r == self.error_spec(),
    {
        &self.error
    }

    /// The exception that occurred, if any.
    pub fn exception(&self) -> (r: &Option<String>)
        ensures
            *r == self.exception_spec(),
    {
        &self.exception
    }
}

/// The answer of a node to the question whether addresses were ever spent from.
#[derive(Clone, Debug, Default)]
pub struct WereAddressesSpentFromResponse {
    error: Option<String>,
    states: Option<Vec<bool>>,
}

impl WereAddressesSpentFromResponse {
    pub closed spec fn error_spec(&self) -> Option<String> {
        self.error
    }

    pub closed spec fn states_spec(&self) -> Option<Seq<bool>> {
        match self.states {
            Some(v) => Some(v@),
            None => None,
        }
    }

    /// A response with the given error and states.
    pub fn new(error: Option<String>, states: Option<Vec<bool>>) -> (r: Self)
        ensures
            r.error_spec() == error,
            r.states_spec() == match states {
                Some(v) => Some(v@),
                None => None::<Seq<bool>>,
            },
    {
        WereAddressesSpentFromResponse { error, states }
    }

    /// The error that occurred, if any.
    pub fn error(&self) -> (r: &Option<String>)
        ensures
            *r == self.error_spec(),
    {
        &self.error
    }

    /// The states of the addresses, if the node found them.
    pub fn states(self) -> (r: Option<Vec<bool>>)
        ensures
            match r {
                Some(v) => self.states_spec() == Some(v@),
                None => self.states_spec() is None,
            },
    {
        self.states
    }

    /// The state of the address at `index`: whether it was spent from.
    pub fn state(self, index: usize) -> (r: bool)
        requires
            self.states_spec() matches Some(s) && index < s.len(),
        ensures
            self.states_spec() matches Some(s) && r == s[index as int],
    {
        match self.states {
            Some(v) => v[index],
            None => false,
        }
    }
}

} // verus!
