//! The ordered list of files that one run processes, taken from the
//! invocation arguments.
use vstd::prelude::*;

verus! {

/// The file names to process, in the order given, and how many there are.
#[derive(Debug)]
pub struct Files {
    pub names: Vec<String>,
    pub count: usize,
}

impl Files {
    /// `count` is the number of names, and there is at least one.
    pub open spec fn wf(&self) -> bool {
        &&& self.count == self.names.len()
        &&& self.names.len() >= 1
    }

    /// The names after the invocation path, when there is at least one.
    pub fn new(args: &[String]) -> (r: Result<Files, &'static str>)
        ensures
            args@.len() < 2 <==> r is Err,
            r matches Err(e) ==> e@ == "Incorrect number of arguments. Expected at least 1."@,
            r matches Ok(f) ==> f.wf() && f.names@ == args@.subrange(1, args@.len() as int),
    {
        if args.len() < 2 {
            return Err("Incorrect number of arguments. Expected at least 1.");
        }
        Ok(Files::from_rest(args))
    }

    /// The one name after the invocation path, when there is exactly one.
    pub fn single(args: &[String]) -> (r: Result<Files, &'static str>)
        ensures
            args@.len() != 2 <==> r is Err,
            r matches Err(e) ==> e@ == "Incorrect number of arguments. Expected 1."@,
            r matches Ok(f) ==> f.wf() && f.names@ == seq![args@[1]],
    {
        if args.len() != 2 {
            return Err("Incorrect number of arguments. Expected 1.");
        }
        let r = Files::from_rest(args);
        assert(r.names@ =~= seq![args@[1]]);
        Ok(r)
    }

    fn from_rest(args: &[String]) -> (r: Files)
        requires
            args@.len() >= 2,
        ensures
            r.wf(),
            r.names@ == args@.subrange(1, args@.len() as int),
    {
        let mut names: Vec<String> = Vec::new();
        let mut i: usize = 1;
        while i < args.len()
            invariant
                1 <= i <= args@.len(),
                names@ == args@.subrange(1, i as int),
            decreases args@.len() - i,
        {
            names.push(args[i].clone());
            assert(names@ =~= args@.subrange(1, i + 1));
            i = i + 1;
        }
        let count = names.len();
        Files { names, count }
    }
}

} // verus!
