# tdx_qgs

Quote requests of TDX guests, verified with Verus.

A TDX guest shares a buffer with the VMM that holds a report. The VMM takes the report
out of the buffer, asks the Quote Generation Service (QGS) of the host for a quote,
writes the quote back and interrupts the guest.

The library in `src/` holds everything about this that is not input or output. Each
procedure is a function from a state and an event to the next action, or to a result:
its caller performs the action and comes back with the event.

- `bytes`: numbers as bytes
- `progress`: what such a procedure returns
- `guest`: accesses to guest memory, and a model of it
- `header`: the header of the shared buffer
- `take`: taking a request out of the buffer
- `complete`: writing the result back
- `message`: the messages of the service
- `exchange`: one exchange with the service, and a model of the connection
- `worker`: answering a request
- `service`: what a guest gets for a request in all
- `tdx`: structures that KVM and the VMM exchange

The functions named `law_...` state what holds of whole runs and of several functions
together.

`app/` performs the actions on real guest memory and on the socket of the service, and
has the structures of `tdx` in the layout of the kernel.
