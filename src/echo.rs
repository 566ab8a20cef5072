use vstd::prelude::*;

verus! {

/// One function that a plugin exports: its name, and the type tag of each
/// parameter and of each result, by name.
pub struct FunctionDescriptor {
    pub name: String,
    pub args: Vec<(String, String)>,
    pub rets: Vec<(String, String)>,
}

/// Why a plugin call failed.
#[derive(Debug, PartialEq, Eq)]
pub enum RpcError {
    /// The plugin exports no function of this name.
    NotFound(String),
    /// The connection to the plugin failed, with the transport's message.
    Transport(String),
}

/// The bytes of the text `success` (ASCII).
pub open spec fn success_bytes() -> Seq<u8> {
    seq![115u8, 117u8, 99u8, 99u8, 101u8, 115u8, 115u8]
}

/// A plugin that exports a single function, `echo`, taking a `message` and
/// answering `stdout` = `success`.
pub struct MyPlugin {}

impl Default for MyPlugin {
    fn default() -> (r: Self)
        ensures
            r == (MyPlugin {  }),
    {
        MyPlugin {  }
    }
}

impl MyPlugin {
    /// The functions this plugin exports.
    pub fn list_functions(&self) -> (r: Vec<FunctionDescriptor>)
        ensures
            r.len() == 1,
            r[0].name@ == "echo"@,
            r[0].args.len() == 1,
            r[0].args[0].0@ == "message"@,
            r[0].args[0].1@ == "string"@,
            r[0].rets.len() == 1,
            r[0].rets[0].0@ == "stdout"@,
            r[0].rets[0].1@ == "string"@,
    {
        let args = vec![("message".to_owned(), "string".to_owned())];
        let rets = vec![("stdout".to_owned(), "string".to_owned())];
        vec![FunctionDescriptor { name: "echo".to_owned(), args, rets }]
    }

    /// Runs the exported function `function_name` on `args`, giving its
    /// results by name.
    pub fn execute(&self, function_name: &String, args: &Vec<(String, Vec<u8>)>) -> (r: Result<
        Vec<(String, Vec<u8>)>,
        RpcError,
    >)
        ensures
            function_name@ == "echo"@ ==> match r {
                Ok(rets) => rets.len() == 1 && rets[0].0@ == "stdout"@ && rets[0].1@
                    == success_bytes(),
                Err(_) => false,
            },
            function_name@ != "echo"@ ==> match r {
                Ok(_) => false,
                Err(RpcError::NotFound(f)) => f@ == function_name@,
                Err(_) => false,
            },
    {
        if *function_name == "echo".to_owned() {
            let out: Vec<u8> = vec![115u8, 117u8, 99u8, 99u8, 101u8, 115u8, 115u8];
            proof {
                assert(out@ =~= success_bytes());
            }
            Ok(vec![("stdout".to_owned(), out)])
        } else {
            Err(RpcError::NotFound(function_name.clone()))
        }
    }
}

} // verus!
